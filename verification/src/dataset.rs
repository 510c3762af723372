//! The dataset model and its write path: ingest with collision detection,
//! update, and delete with re-rooting of duplicate groups.
//!
//! The state a dataset's metadata store holds is modelled here as a value.
//! Decisions are taken on it and on the vector index's answers, which enter
//! as plain values; the index writes they imply come back as
//! [`IndexAction`]s for the caller to perform. Within one dataset at most
//! one chunk owns a given vector point; the chunks merged into that point
//! form its duplicate group, and deleting the group's root promotes the
//! most recently created remaining duplicate.

use vstd::prelude::*;

use crate::faults::Fault;
use crate::ids::{ChunkId, CollectionId, DatasetId, PointId, UserId};
use crate::model::{
    entries_view, opt_str_view, ChunkCollection, ChunkMetadata, ChunkView, CollectionView,
    CreateChunkData, MetadataEntry, ReturnCreatedChunk,
};

verus! {

/// A vector-index write the caller must perform.
#[derive(Clone, Copy, PartialEq, Eq, Structural, Debug)]
pub enum IndexAction {
    /// Create a point carrying the named chunk's embedding and denormalized
    /// payload.
    CreatePoint { point: PointId, chunk: ChunkId },
    /// Touch a point's authorship payload; its embedding stays as it is.
    UpdatePointAuthor { point: PointId },
    /// Replace a point's embedding and payload with the named chunk's.
    UpdatePointEmbedding { point: PointId, chunk: ChunkId },
    /// Remove a point.
    DeletePoint { point: PointId },
}

/// The single nearest neighbour of a probe embedding, as the vector index
/// reports it: a point and a similarity score in millionths (higher is more
/// similar).
#[derive(Clone, Copy, PartialEq, Eq, Structural, Debug)]
pub struct Neighbor {
    pub point: PointId,
    pub score: u32,
}

/// What the vector index answered to an unfiltered top-1 query for a new
/// chunk's embedding over the whole dataset.
#[derive(Clone, Copy, PartialEq, Eq, Structural, Debug)]
pub struct CollisionProbe {
    pub nearest: Option<Neighbor>,
}

/// The collision decision: the matched point when the dataset's nearest
/// neighbour is at least `threshold`-similar, absent otherwise.
pub open spec fn spec_collision(probe: CollisionProbe, threshold: u32) -> Option<PointId> {
    match probe.nearest {
        Some(n) => if n.score >= threshold {
            Some(n.point)
        } else {
            None
        },
        None => None,
    }
}

/// Decides [`spec_collision`] on a probe answer.
pub fn detect_collision(probe: &CollisionProbe, threshold: u32) -> (r: Option<PointId>)
    ensures
        r == spec_collision(*probe, threshold),
{
    match &probe.nearest {
        Some(n) => if n.score >= threshold {
            Some(n.point)
        } else {
            None
        },
        None => None,
    }
}

/// Membership of a chunk in a collection.
#[derive(Clone, Copy, PartialEq, Eq, Structural, Debug)]
pub struct Bookmark {
    pub collection_id: CollectionId,
    pub chunk_id: ChunkId,
}

/// A dataset's durable state: its chunk rows, collections and bookmarks,
/// and the creation counter.
pub struct DatasetState {
    pub dataset_id: DatasetId,
    pub chunks: Vec<ChunkMetadata>,
    pub collections: Vec<ChunkCollection>,
    pub bookmarks: Vec<Bookmark>,
    /// The creation order the next chunk will get.
    pub next_seq: u64,
}

/// The views of a chunk list.
pub open spec fn chunks_view(v: Seq<ChunkMetadata>) -> Seq<ChunkView> {
    v.map_values(|c: ChunkMetadata| c@)
}

/// The views of a collection list.
pub open spec fn collections_view(v: Seq<ChunkCollection>) -> Seq<CollectionView> {
    v.map_values(|c: ChunkCollection| c@)
}

/// Spec-level view of a [`DatasetState`].
#[verifier::ext_equal]
pub struct DatasetView {
    pub dataset_id: DatasetId,
    pub chunks: Seq<ChunkView>,
    pub collections: Seq<CollectionView>,
    pub bookmarks: Seq<Bookmark>,
    pub next_seq: u64,
}

impl View for DatasetState {
    type V = DatasetView;

    open spec fn view(&self) -> DatasetView {
        DatasetView {
            dataset_id: self.dataset_id,
            chunks: chunks_view(self.chunks@),
            collections: collections_view(self.collections@),
            bookmarks: self.bookmarks@,
            next_seq: self.next_seq,
        }
    }
}

impl DatasetView {
    /// Some chunk carries this id.
    pub open spec fn has_chunk(self, id: ChunkId) -> bool {
        exists|i: int| 0 <= i < self.chunks.len() && self.chunks[i].id == id
    }

    /// The position of the chunk carrying this id.
    pub open spec fn index_of(self, id: ChunkId) -> int {
        choose|i: int| 0 <= i < self.chunks.len() && self.chunks[i].id == id
    }

    /// The chunk carrying this id.
    pub open spec fn chunk_of(self, id: ChunkId) -> ChunkView {
        self.chunks[self.index_of(id)]
    }

    /// Some chunk carries this tracking id.
    pub open spec fn has_tracking(self, t: Seq<char>) -> bool {
        exists|i: int| 0 <= i < self.chunks.len() && self.chunks[i].tracking_id == Some(t)
    }

    /// The position of the chunk carrying this tracking id.
    pub open spec fn index_of_tracking(self, t: Seq<char>) -> int {
        choose|i: int| 0 <= i < self.chunks.len() && self.chunks[i].tracking_id == Some(t)
    }

    /// The chunk carrying this tracking id.
    pub open spec fn chunk_of_tracking(self, t: Seq<char>) -> ChunkView {
        self.chunks[self.index_of_tracking(t)]
    }

    /// Some chunk owns this vector point.
    pub open spec fn owns_point(self, p: PointId) -> bool {
        exists|i: int| 0 <= i < self.chunks.len() && self.chunks[i].vector_point_id == Some(p)
    }

    /// The position of the root owning this vector point.
    pub open spec fn root_index_of(self, p: PointId) -> int {
        choose|i: int| 0 <= i < self.chunks.len() && self.chunks[i].vector_point_id == Some(p)
    }

    /// The root chunk owning this vector point.
    pub open spec fn root_of(self, p: PointId) -> ChunkView {
        self.chunks[self.root_index_of(p)]
    }


    /// Some collection carries this id.
    pub open spec fn has_collection(self, id: CollectionId) -> bool {
        exists|i: int| 0 <= i < self.collections.len() && self.collections[i].id == id
    }


    /// Chunk ids are unique.
    pub open spec fn ids_unique(self) -> bool {
        forall|i: int, j: int|
            0 <= i < j < self.chunks.len() ==> self.chunks[i].id != self.chunks[j].id
    }

    /// Present tracking ids are unique.
    pub open spec fn tracking_unique(self) -> bool {
        forall|i: int, j: int|
            0 <= i < j < self.chunks.len() && self.chunks[i].tracking_id is Some
                ==> self.chunks[i].tracking_id != self.chunks[j].tracking_id
    }

    /// At most one chunk owns a given vector point.
    pub open spec fn points_unique(self) -> bool {
        forall|i: int, j: int|
            0 <= i < j < self.chunks.len() && self.chunks[i].vector_point_id is Some
                ==> self.chunks[i].vector_point_id != self.chunks[j].vector_point_id
    }

    /// Every chunk is a root or a duplicate, and a duplicate's point is
    /// owned by some root.
    pub open spec fn linkage_ok(self) -> bool {
        forall|i: int|
            0 <= i < self.chunks.len() ==> (#[trigger] self.chunks[i]).linkage_ok() && match self
                .chunks[i].collision {
                Some(p) => self.owns_point(p),
                None => true,
            }
    }

    /// Creation orders are below the counter and unique.
    pub open spec fn seqs_ok(self) -> bool {
        &&& forall|i: int|
            0 <= i < self.chunks.len() ==> (#[trigger] self.chunks[i]).created_seq < self.next_seq
        &&& forall|i: int, j: int|
            0 <= i < j < self.chunks.len() ==> self.chunks[i].created_seq != self
                .chunks[j].created_seq
    }

    /// Every chunk belongs to this dataset.
    pub open spec fn partition_ok(self) -> bool {
        forall|i: int|
            0 <= i < self.chunks.len() ==> (#[trigger] self.chunks[i]).dataset_id == self.dataset_id
    }

    /// The dataset invariant: constructors establish it and every operation
    /// preserves it.
    pub open spec fn wf(self) -> bool {
        &&& self.ids_unique()
        &&& self.tracking_unique()
        &&& self.points_unique()
        &&& self.linkage_ok()
        &&& self.seqs_ok()
        &&& self.partition_ok()
    }
}

impl DatasetState {
    /// An empty dataset; well-formed from the start.
    pub fn new(dataset_id: DatasetId) -> (r: DatasetState)
        ensures
            r@.wf(),
            r@.chunks.len() == 0,
            r@.collections.len() == 0,
            r@.bookmarks.len() == 0,
            r@.dataset_id == dataset_id,
    {
        let r = DatasetState {
            dataset_id,
            chunks: Vec::new(),
            collections: Vec::new(),
            bookmarks: Vec::new(),
            next_seq: 0,
        };
        proof {
            assert(r@.chunks =~= Seq::<ChunkView>::empty());
            assert(r@.collections =~= Seq::<CollectionView>::empty());
        }
        r
    }

    /// The number of chunk rows the dataset holds.
    pub fn row_count(&self) -> (r: usize)
        ensures
            r == self@.chunks.len(),
    {
        self.chunks.len()
    }

    /// The position of the chunk carrying `id`, when one does.
    pub(crate) fn position_by_id(&self, id: ChunkId) -> (r: Option<usize>)
        ensures
            match r {
                Some(i) => i < self@.chunks.len() && self@.chunks[i as int].id == id,
                None => !self@.has_chunk(id),
            },
    {
        let mut i: usize = 0;
        while i < self.chunks.len()
            invariant
                0 <= i <= self@.chunks.len(),
                forall|k: int| 0 <= k < i ==> self@.chunks[k].id != id,
            decreases self@.chunks.len() - i,
        {
            if self.chunks[i].id == id {
                return Some(i);
            }
            i = i + 1;
        }
        None
    }

    /// The position of the chunk carrying tracking id `t`, when one does.
    pub(crate) fn position_by_tracking(&self, t: &String) -> (r: Option<usize>)
        ensures
            match r {
                Some(i) => i < self@.chunks.len() && self@.chunks[i as int].tracking_id == Some(t@),
                None => !self@.has_tracking(t@),
            },
    {
        let mut i: usize = 0;
        while i < self.chunks.len()
            invariant
                0 <= i <= self@.chunks.len(),
                forall|k: int| 0 <= k < i ==> self@.chunks[k].tracking_id != Some(t@),
            decreases self@.chunks.len() - i,
        {
            match &self.chunks[i].tracking_id {
                Some(existing) => if crate::text::string_eq(existing, t) {
                    return Some(i);
                },
                None => {},
            }
            i = i + 1;
        }
        None
    }

    /// The position of the root owning point `p`, when one does.
    pub(crate) fn position_by_point(&self, p: PointId) -> (r: Option<usize>)
        ensures
            match r {
                Some(i) => i < self@.chunks.len() && self@.chunks[i as int].vector_point_id == Some(
                    p,
                ),
                None => !self@.owns_point(p),
            },
    {
        let mut i: usize = 0;
        while i < self.chunks.len()
            invariant
                0 <= i <= self@.chunks.len(),
                forall|k: int| 0 <= k < i ==> self@.chunks[k].vector_point_id != Some(p),
            decreases self@.chunks.len() - i,
        {
            match self.chunks[i].vector_point_id {
                Some(owned) => if owned == p {
                    return Some(i);
                },
                None => {},
            }
            i = i + 1;
        }
        None
    }

    /// When ids are unique, a position holding `id` is the position
    /// [`DatasetView::index_of`] names.
    pub(crate) proof fn lemma_index_of(self, i: int)
        requires
            self@.ids_unique(),
            0 <= i < self@.chunks.len(),
        ensures
            self@.index_of(self@.chunks[i].id) == i,
            self@.has_chunk(self@.chunks[i].id),
    {
        let id = self@.chunks[i].id;
        assert(self@.has_chunk(id));
        let j = self@.index_of(id);
        if i != j {
            assert(self@.chunks[i].id != self@.chunks[j].id);
        }
    }

    /// As [`Self::lemma_index_of`], for tracking ids.
    pub(crate) proof fn lemma_index_of_tracking(self, i: int)
        requires
            self@.tracking_unique(),
            0 <= i < self@.chunks.len(),
            self@.chunks[i].tracking_id is Some,
        ensures
            self@.index_of_tracking(self@.chunks[i].tracking_id->0) == i,
            self@.has_tracking(self@.chunks[i].tracking_id->0),
    {
        let t = self@.chunks[i].tracking_id->0;
        assert(self@.has_tracking(t));
        let j = self@.index_of_tracking(t);
        if i != j {
            assert(self@.chunks[i].tracking_id != self@.chunks[j].tracking_id);
        }
    }

    /// As [`Self::lemma_index_of`], for owned vector points.
    pub(crate) proof fn lemma_root_index_of(self, i: int)
        requires
            self@.points_unique(),
            0 <= i < self@.chunks.len(),
            self@.chunks[i].vector_point_id is Some,
        ensures
            self@.root_index_of(self@.chunks[i].vector_point_id->0) == i,
            self@.owns_point(self@.chunks[i].vector_point_id->0),
    {
        let p = self@.chunks[i].vector_point_id->0;
        assert(self@.owns_point(p));
        let j = self@.root_index_of(p);
        if i != j {
            assert(self@.chunks[i].vector_point_id != self@.chunks[j].vector_point_id);
        }
    }

    /// Fetches a chunk by id; absent ids are a [`Fault::NotFound`].
    pub fn get_chunk_by_id(&self, chunk_id: ChunkId) -> (r: Result<ChunkMetadata, Fault>)
        requires
            self@.wf(),
        ensures
            match r {
                Ok(c) => self@.has_chunk(chunk_id) && c@ == self@.chunk_of(chunk_id),
                Err(f) => f == Fault::NotFound && !self@.has_chunk(chunk_id),
            },
    {
        match self.position_by_id(chunk_id) {
            Some(i) => {
                proof {
                    self.lemma_index_of(i as int);
                }
                Ok(self.chunks[i].clone())
            },
            None => Err(Fault::NotFound),
        }
    }

    /// Fetches a chunk by tracking id; absent tracking ids are a
    /// [`Fault::NotFound`].
    pub fn get_chunk_by_tracking_id(&self, tracking_id: &String) -> (r: Result<
        ChunkMetadata,
        Fault,
    >)
        requires
            self@.wf(),
        ensures
            match r {
                Ok(c) => self@.has_tracking(tracking_id@) && c@ == self@.chunk_of_tracking(
                    tracking_id@,
                ),
                Err(f) => f == Fault::NotFound && !self@.has_tracking(tracking_id@),
            },
    {
        match self.position_by_tracking(tracking_id) {
            Some(i) => {
                proof {
                    self.lemma_index_of_tracking(i as int);
                }
                Ok(self.chunks[i].clone())
            },
            None => Err(Fault::NotFound),
        }
    }

    /// Fetches a chunk by id and checks the caller authored it: a missing
    /// chunk is a [`Fault::NotFound`], someone else's chunk a
    /// [`Fault::Forbidden`].
    pub fn user_owns_chunk(&self, user_id: UserId, chunk_id: ChunkId) -> (r: Result<
        ChunkMetadata,
        Fault,
    >)
        requires
            self@.wf(),
        ensures
            match r {
                Ok(c) => self@.has_chunk(chunk_id) && c@ == self@.chunk_of(chunk_id)
                    && c@.author_id == user_id,
                Err(f) => {
                    ||| (f == Fault::NotFound && !self@.has_chunk(chunk_id))
                    ||| (f == Fault::Forbidden && self@.has_chunk(chunk_id) && self@.chunk_of(
                        chunk_id,
                    ).author_id != user_id)
                },
            },
    {
        let c = self.get_chunk_by_id(chunk_id)?;
        if c.author_id != user_id {
            return Err(Fault::Forbidden);
        }
        Ok(c)
    }

    /// The position of the collection carrying `id`, when one does.
    pub(crate) fn position_of_collection(&self, id: CollectionId) -> (r: Option<usize>)
        ensures
            match r {
                Some(i) => i < self@.collections.len() && self@.collections[i as int].id == id,
                None => !self@.has_collection(id),
            },
    {
        let mut i: usize = 0;
        while i < self.collections.len()
            invariant
                0 <= i <= self@.collections.len(),
                forall|k: int| 0 <= k < i ==> self@.collections[k].id != id,
            decreases self@.collections.len() - i,
        {
            if self.collections[i].id == id {
                proof {
                    assert(self@.collections[i as int].id == id);
                }
                return Some(i);
            }
            i = i + 1;
        }
        None
    }

    /// Whether some collection carries `id`.
    fn collection_exists(&self, id: CollectionId) -> (r: bool)
        ensures
            r == self@.has_collection(id),
    {
        let mut i: usize = 0;
        while i < self.collections.len()
            invariant
                0 <= i <= self@.collections.len(),
                forall|k: int| 0 <= k < i ==> self@.collections[k].id != id,
            decreases self@.collections.len() - i,
        {
            if self.collections[i].id == id {
                proof {
                    assert(self@.collections[i as int].id == id);
                }
                return true;
            }
            i = i + 1;
        }
        false
    }

    /// As [`Self::user_owns_chunk`], keyed by tracking id.
    pub fn user_owns_chunk_tracking_id(&self, user_id: UserId, tracking_id: &String) -> (r: Result<
        ChunkMetadata,
        Fault,
    >)
        requires
            self@.wf(),
        ensures
            match r {
                Ok(c) => self@.has_tracking(tracking_id@) && c@ == self@.chunk_of_tracking(
                    tracking_id@,
                ) && c@.author_id == user_id,
                Err(f) => {
                    ||| (f == Fault::NotFound && !self@.has_tracking(tracking_id@))
                    ||| (f == Fault::Forbidden && self@.has_tracking(tracking_id@)
                        && self@.chunk_of_tracking(tracking_id@).author_id != user_id)
                },
            },
    {
        let c = self.get_chunk_by_tracking_id(tracking_id)?;
        if c.author_id != user_id {
            return Err(Fault::Forbidden);
        }
        Ok(c)
    }
}

/// Some chunk in the list is a duplicate merged into point `p`.
pub open spec fn has_dup_in(chunks: Seq<ChunkView>, p: PointId) -> bool {
    exists|i: int| 0 <= i < chunks.len() && chunks[i].collision == Some(p)
}

/// `i` names a duplicate of point `p` no other duplicate of `p` was created
/// after.
pub open spec fn is_latest_dup_in(chunks: Seq<ChunkView>, p: PointId, i: int) -> bool {
    &&& 0 <= i < chunks.len() && chunks[i].collision == Some(p)
    &&& forall|j: int|
        0 <= j < chunks.len() && chunks[j].collision == Some(p)
            ==> chunks[j].created_seq <= chunks[i].created_seq
}

/// The position of the most recently created duplicate of point `p`.
pub open spec fn latest_dup_in(chunks: Seq<ChunkView>, p: PointId) -> int {
    choose|i: int| is_latest_dup_in(chunks, p, i)
}

/// When creation orders are unique, the most recently created duplicate is
/// one position.
proof fn lemma_latest_dup_unique(chunks: Seq<ChunkView>, p: PointId, i: int)
    requires
        forall|a: int, b: int|
            0 <= a < b < chunks.len() ==> chunks[a].created_seq != chunks[b].created_seq,
        is_latest_dup_in(chunks, p, i),
    ensures
        latest_dup_in(chunks, p) == i,
{
    let j = latest_dup_in(chunks, p);
    assert(is_latest_dup_in(chunks, p, j));
    if i != j {
        assert(chunks[i].created_seq <= chunks[j].created_seq);
        assert(chunks[j].created_seq <= chunks[i].created_seq);
    }
}

/// The chunk list after re-rooting group `old_p` onto the fresh point
/// `new_p`: the chunk at `promoted` becomes the root owning `new_p`, and
/// the group's other duplicates follow it.
pub open spec fn spec_promote(
    chunks: Seq<ChunkView>,
    old_p: PointId,
    new_p: PointId,
    promoted: int,
) -> Seq<ChunkView> {
    chunks.map(
        |i: int, c: ChunkView|
            if i == promoted {
                ChunkView { vector_point_id: Some(new_p), collision: None, ..c }
            } else if c.collision == Some(old_p) {
                ChunkView { collision: Some(new_p), ..c }
            } else {
                c
            },
    )
}

/// Everything a delete decides: the new state, the index writes owed, and
/// the response.
#[verifier::ext_equal]
pub struct DeleteOutcomeView {
    pub state: DatasetView,
    pub actions: Seq<IndexAction>,
    pub result: Result<(), Fault>,
}

/// The delete pipeline on the dataset model, authorization aside. Deleting
/// a duplicate only drops its row. Deleting a root drops its row and its
/// point; when the root leaves a duplicate group behind, the most recently
/// created remaining duplicate is promoted to root with a freshly created
/// point, in the same step, so the group is never headless.
pub open spec fn spec_delete_chunk(
    s: DatasetView,
    id: ChunkId,
    fresh_point: PointId,
) -> DeleteOutcomeView {
    if !s.has_chunk(id) {
        DeleteOutcomeView { state: s, actions: Seq::empty(), result: Err(Fault::NotFound) }
    } else {
        let i = s.index_of(id);
        let c = s.chunks[i];
        let rem = s.chunks.remove(i);
        match c.vector_point_id {
            None => DeleteOutcomeView {
                state: DatasetView { chunks: rem, ..s },
                actions: Seq::empty(),
                result: Ok(()),
            },
            Some(p) => if has_dup_in(rem, p) {
                let k = latest_dup_in(rem, p);
                DeleteOutcomeView {
                    state: DatasetView { chunks: spec_promote(rem, p, fresh_point, k), ..s },
                    actions: seq![
                        IndexAction::DeletePoint { point: p },
                        IndexAction::CreatePoint { point: fresh_point, chunk: rem[k].id },
                    ],
                    result: Ok(()),
                }
            } else {
                DeleteOutcomeView {
                    state: DatasetView { chunks: rem, ..s },
                    actions: seq![IndexAction::DeletePoint { point: p }],
                    result: Ok(()),
                }
            },
        }
    }
}

/// The executable delete outcome matches what the spec pipeline decided.
pub open spec fn delete_outcome_matches(
    o: DeleteOutcomeView,
    new_state: DatasetView,
    actions: Seq<IndexAction>,
    result: Result<(), Fault>,
) -> bool {
    &&& new_state == o.state
    &&& actions == o.actions
    &&& result == o.result
}

/// A chunk after an update request: present request fields replace the
/// stored ones, absent ones keep them; identity, linkage and creation
/// order never change.
pub open spec fn spec_patched_chunk(
    c: ChunkView,
    link: Option<Seq<char>>,
    chunk_html: Option<Seq<char>>,
    metadata: Option<Seq<crate::model::EntryView>>,
    tracking: Option<Seq<char>>,
    content: Seq<char>,
    ts: Option<i64>,
    weight: Option<u32>,
) -> ChunkView {
    ChunkView {
        content,
        chunk_html: match chunk_html {
            Some(h) => Some(h),
            None => c.chunk_html,
        },
        link: match link {
            Some(l) => Some(l),
            None => c.link,
        },
        metadata: match metadata {
            Some(m) => m,
            None => c.metadata,
        },
        tracking_id: tracking,
        time_stamp: match ts {
            Some(t) => Some(t),
            None => c.time_stamp,
        },
        weight: match weight {
            Some(w) => w,
            None => c.weight,
        },
        ..c
    }
}

/// Everything an update decides: the new state, the index writes owed, and
/// the response.
#[verifier::ext_equal]
pub struct UpdateOutcomeView {
    pub state: DatasetView,
    pub actions: Seq<IndexAction>,
    pub result: Result<(), Fault>,
}

/// The update-by-id pipeline on the dataset model, timestamp resolved. A
/// root's point is re-embedded; a duplicate has no independent point, so no
/// index write happens for it.
pub open spec fn spec_update_chunk(
    s: DatasetView,
    req: crate::model::UpdateView,
    content: Seq<char>,
    ts: Option<i64>,
    user: UserId,
) -> UpdateOutcomeView {
    if !s.has_chunk(req.chunk_uuid) {
        UpdateOutcomeView { state: s, actions: Seq::empty(), result: Err(Fault::NotFound) }
    } else {
        let i = s.index_of(req.chunk_uuid);
        let c = s.chunks[i];
        if c.author_id != user {
            UpdateOutcomeView { state: s, actions: Seq::empty(), result: Err(Fault::Forbidden) }
        } else {
            let tracking = norm_tracking(req.tracking_id);
            if tracking matches Some(t) && (exists|j: int|
                0 <= j < s.chunks.len() && j != i && s.chunks[j].tracking_id == Some(t)) {
                UpdateOutcomeView {
                    state: s,
                    actions: Seq::empty(),
                    result: Err(Fault::Validation),
                }
            } else {
                let c2 = spec_patched_chunk(
                    c,
                    req.link,
                    req.chunk_html,
                    req.metadata,
                    match tracking {
                        Some(t) => Some(t),
                        None => c.tracking_id,
                    },
                    content,
                    ts,
                    req.weight,
                );
                UpdateOutcomeView {
                    state: DatasetView { chunks: s.chunks.update(i, c2), ..s },
                    actions: match c.vector_point_id {
                        Some(p) => seq![
                            IndexAction::UpdatePointEmbedding { point: p, chunk: c.id },
                        ],
                        None => Seq::empty(),
                    },
                    result: Ok(()),
                }
            }
        }
    }
}

/// The update-by-tracking-id pipeline on the dataset model, timestamp
/// resolved. An empty key is rejected outright; the key itself stays on the
/// chunk.
pub open spec fn spec_update_chunk_by_tracking_id(
    s: DatasetView,
    req: crate::model::UpdateTrackingView,
    content: Seq<char>,
    ts: Option<i64>,
    user: UserId,
) -> UpdateOutcomeView {
    if req.tracking_id.len() == 0 {
        UpdateOutcomeView { state: s, actions: Seq::empty(), result: Err(Fault::Validation) }
    } else if !s.has_tracking(req.tracking_id) {
        UpdateOutcomeView { state: s, actions: Seq::empty(), result: Err(Fault::NotFound) }
    } else {
        let i = s.index_of_tracking(req.tracking_id);
        let c = s.chunks[i];
        if c.author_id != user {
            UpdateOutcomeView { state: s, actions: Seq::empty(), result: Err(Fault::Forbidden) }
        } else {
            let c2 = spec_patched_chunk(
                c,
                req.link,
                req.chunk_html,
                req.metadata,
                Some(req.tracking_id),
                content,
                ts,
                req.weight,
            );
            UpdateOutcomeView {
                state: DatasetView { chunks: s.chunks.update(i, c2), ..s },
                actions: match c.vector_point_id {
                    Some(p) => seq![IndexAction::UpdatePointEmbedding { point: p, chunk: c.id }],
                    None => Seq::empty(),
                },
                result: Ok(()),
            }
        }
    }
}

/// The executable update outcome matches what the spec pipeline decided.
pub open spec fn update_outcome_matches(
    o: UpdateOutcomeView,
    new_state: DatasetView,
    actions: Seq<IndexAction>,
    result: Result<(), Fault>,
) -> bool {
    &&& new_state == o.state
    &&& actions == o.actions
    &&& result == o.result
}

/// Replacing a row with one that keeps its identity, linkage, creation
/// order and partition, and whose tracking id conflicts with no other row,
/// keeps the dataset invariant.
proof fn lemma_update_wf(s: DatasetView, t: DatasetView, i: int, c2: ChunkView)
    requires
        s.wf(),
        0 <= i < s.chunks.len(),
        t.chunks == s.chunks.update(i, c2),
        t.next_seq == s.next_seq,
        t.dataset_id == s.dataset_id,
        c2.id == s.chunks[i].id,
        c2.vector_point_id == s.chunks[i].vector_point_id,
        c2.collision == s.chunks[i].collision,
        c2.created_seq == s.chunks[i].created_seq,
        c2.dataset_id == s.chunks[i].dataset_id,
        c2.tracking_id matches Some(tr) ==> forall|j: int|
            0 <= j < s.chunks.len() && j != i ==> s.chunks[j].tracking_id != Some(tr),
    ensures
        t.wf(),
{
    assert(t.chunks.len() == s.chunks.len());
    assert(t.ids_unique());
    assert forall|a: int, b: int|
        0 <= a < b < t.chunks.len() && t.chunks[a].tracking_id is Some implies t
        .chunks[a].tracking_id != t.chunks[b].tracking_id by {
        if a != i && b != i {
            assert(t.chunks[a] == s.chunks[a]);
            assert(t.chunks[b] == s.chunks[b]);
        }
    }
    assert(t.points_unique());
    assert forall|j: int| 0 <= j < t.chunks.len() implies (#[trigger] t.chunks[j]).linkage_ok()
        && match t.chunks[j].collision {
        Some(q) => t.owns_point(q),
        None => true,
    } by {
        assert(s.chunks[j].linkage_ok());
        match t.chunks[j].collision {
            Some(q) => {
                assert(s.chunks[j].collision == Some(q));
                assert(s.owns_point(q));
                let m = choose|m: int|
                    0 <= m < s.chunks.len() && s.chunks[m].vector_point_id == Some(q);
                assert(t.chunks[m].vector_point_id == Some(q));
                assert(t.owns_point(q));
            },
            None => {},
        }
    }
    assert(t.seqs_ok());
    assert(t.partition_ok());
}

/// Updating a row commutes with taking views.
proof fn lemma_chunks_view_update(v: Seq<ChunkMetadata>, i: int, c: ChunkMetadata)
    requires
        0 <= i < v.len(),
    ensures
        chunks_view(v.update(i, c)) =~= chunks_view(v).update(i, c@),
{
    assert forall|j: int| 0 <= j < v.len() implies chunks_view(v.update(i, c))[j] == chunks_view(
        v,
    ).update(i, c@)[j] by {
        if j != i {
            assert(v.update(i, c)[j] == v[j]);
        }
    }
}

/// Removing a row commutes with taking views.
proof fn lemma_chunks_view_remove(v: Seq<ChunkMetadata>, i: int)
    requires
        0 <= i < v.len(),
    ensures
        chunks_view(v.remove(i)) =~= chunks_view(v).remove(i),
{
    assert forall|j: int| 0 <= j < v.len() - 1 implies chunks_view(v.remove(i))[j] == chunks_view(
        v,
    ).remove(i)[j] by {
        if j < i {
            assert(v.remove(i)[j] == v[j]);
        } else {
            assert(v.remove(i)[j] == v[j + 1]);
        }
    }
}

/// What removal leaves: every per-row and pairwise invariant except that a
/// duplicate's point may have lost its owner.
proof fn lemma_remove_base(s: DatasetView, i: int)
    requires
        s.wf(),
        0 <= i < s.chunks.len(),
    ensures
        ({
            let rem = s.chunks.remove(i);
            &&& forall|a: int, b: int| 0 <= a < b < rem.len() ==> rem[a].id != rem[b].id
            &&& forall|a: int, b: int|
                0 <= a < b < rem.len() && rem[a].tracking_id is Some ==> rem[a].tracking_id
                    != rem[b].tracking_id
            &&& forall|a: int, b: int|
                0 <= a < b < rem.len() && rem[a].vector_point_id is Some ==> rem[a].vector_point_id
                    != rem[b].vector_point_id
            &&& forall|a: int, b: int|
                0 <= a < b < rem.len() ==> rem[a].created_seq != rem[b].created_seq
            &&& forall|j: int|
                0 <= j < rem.len() ==> (#[trigger] rem[j]).created_seq < s.next_seq
            &&& forall|j: int| 0 <= j < rem.len() ==> (#[trigger] rem[j]).dataset_id == s.dataset_id
            &&& forall|j: int| 0 <= j < rem.len() ==> (#[trigger] rem[j]).linkage_ok()
        }),
{
    let rem = s.chunks.remove(i);
    assert forall|a: int, b: int| 0 <= a < b < rem.len() implies rem[a].id != rem[b].id
        && (rem[a].tracking_id is Some ==> rem[a].tracking_id != rem[b].tracking_id) && (
    rem[a].vector_point_id is Some ==> rem[a].vector_point_id != rem[b].vector_point_id)
        && rem[a].created_seq != rem[b].created_seq by {
        let a2 = if a < i {
            a
        } else {
            a + 1
        };
        let b2 = if b < i {
            b
        } else {
            b + 1
        };
        assert(rem[a] == s.chunks[a2]);
        assert(rem[b] == s.chunks[b2]);
        assert(0 <= a2 < b2 < s.chunks.len());
    }
    assert forall|j: int| 0 <= j < rem.len() implies (#[trigger] rem[j]).created_seq < s.next_seq
        && rem[j].dataset_id == s.dataset_id && rem[j].linkage_ok() by {
        let j2 = if j < i {
            j
        } else {
            j + 1
        };
        assert(rem[j] == s.chunks[j2]);
        assert(s.chunks[j2].linkage_ok());
    }
}

/// Removal keeps the dataset invariant when the removed row's point, if it
/// owned one, has no duplicate left referencing it.
proof fn lemma_remove_wf(s: DatasetView, t: DatasetView, i: int)
    requires
        s.wf(),
        0 <= i < s.chunks.len(),
        t.chunks == s.chunks.remove(i),
        t.next_seq == s.next_seq,
        t.dataset_id == s.dataset_id,
        s.chunks[i].vector_point_id matches Some(p) ==> !has_dup_in(s.chunks.remove(i), p),
    ensures
        t.wf(),
{
    lemma_remove_base(s, i);
    let rem = t.chunks;
    assert forall|j: int|
        0 <= j < rem.len() && (#[trigger] rem[j]).collision is Some implies t.owns_point(
        rem[j].collision->0,
    ) by {
        let j2 = if j < i {
            j
        } else {
            j + 1
        };
        assert(rem[j] == s.chunks[j2]);
        let q = rem[j].collision->0;
        assert(s.chunks[j2].linkage_ok() && s.owns_point(q));
        let m = choose|m: int|
            0 <= m < s.chunks.len() && s.chunks[m].vector_point_id == Some(q);
        if m == i {
            assert(has_dup_in(rem, q));
            assert(false);
        } else {
            let m2 = if m < i {
                m
            } else {
                m - 1
            };
            assert(rem[m2] == s.chunks[m]);
            assert(rem[m2].vector_point_id == Some(q));
        }
    }
}

/// Re-rooting after deleting the root keeps the dataset invariant: the
/// promoted duplicate becomes the sole owner of the fresh point and the
/// group's other duplicates follow it.
proof fn lemma_promote_wf(s: DatasetView, t: DatasetView, i: int, new_p: PointId, k: int)
    requires
        s.wf(),
        0 <= i < s.chunks.len(),
        s.chunks[i].vector_point_id is Some,
        !s.owns_point(new_p),
        is_latest_dup_in(s.chunks.remove(i), s.chunks[i].vector_point_id->0, k),
        t.chunks == spec_promote(
            s.chunks.remove(i),
            s.chunks[i].vector_point_id->0,
            new_p,
            k,
        ),
        t.next_seq == s.next_seq,
        t.dataset_id == s.dataset_id,
    ensures
        t.wf(),
{
    lemma_remove_base(s, i);
    let p = s.chunks[i].vector_point_id->0;
    let rem = s.chunks.remove(i);
    // No row of the remainder owns p or the fresh point.
    assert forall|m: int|
        0 <= m < rem.len() implies rem[m].vector_point_id != Some(p) && rem[m].vector_point_id
        != Some(new_p) by {
        let m2 = if m < i {
            m
        } else {
            m + 1
        };
        assert(rem[m] == s.chunks[m2]);
        if rem[m].vector_point_id == Some(p) {
            assert(s.chunks[m2].vector_point_id == s.chunks[i].vector_point_id);
            assert(m2 != i);
            assert(false);
        }
        if rem[m].vector_point_id == Some(new_p) {
            assert(s.owns_point(new_p));
            assert(false);
        }
    }
    assert(t.chunks.len() == rem.len());
    assert forall|j: int| 0 <= j < rem.len() implies #[trigger] t.chunks[j] == (if j == k {
        ChunkView { vector_point_id: Some(new_p), collision: None, ..rem[j] }
    } else if rem[j].collision == Some(p) {
        ChunkView { collision: Some(new_p), ..rem[j] }
    } else {
        rem[j]
    }) by {}
    assert(rem[k].collision == Some(p));
    assert(rem[k].linkage_ok());
    assert(t.chunks[k].vector_point_id == Some(new_p));
    assert(t.ids_unique());
    assert(t.tracking_unique());
    assert forall|a: int, b: int|
        0 <= a < b < t.chunks.len() && t.chunks[a].vector_point_id is Some implies t
        .chunks[a].vector_point_id != t.chunks[b].vector_point_id by {
        if a != k && b != k {
            assert(rem[a].vector_point_id != Some(new_p));
        }
    }
    assert forall|j: int| 0 <= j < t.chunks.len() implies (#[trigger] t.chunks[j]).linkage_ok()
        && match t.chunks[j].collision {
        Some(q) => t.owns_point(q),
        None => true,
    } by {
        assert(rem[j].linkage_ok());
        if j != k {
            match t.chunks[j].collision {
                Some(q) => {
                    if q == new_p {
                        // This duplicate followed the promoted root.
                        assert(t.chunks[k].vector_point_id == Some(new_p));
                        assert(t.owns_point(new_p));
                    } else {
                        assert(rem[j].collision == Some(q));
                        let j2 = if j < i {
                            j
                        } else {
                            j + 1
                        };
                        assert(rem[j] == s.chunks[j2]);
                        assert(s.chunks[j2].linkage_ok() && s.owns_point(q));
                        let m = choose|m: int|
                            0 <= m < s.chunks.len() && s.chunks[m].vector_point_id == Some(q);
                        assert(m != i);
                        let m2 = if m < i {
                            m
                        } else {
                            m - 1
                        };
                        assert(rem[m2] == s.chunks[m]);
                        assert(rem[m2].vector_point_id == Some(q));
                        assert(m2 != k);
                        assert(rem[m2].collision is None);
                        assert(t.chunks[m2].vector_point_id == Some(q));
                        assert(t.owns_point(q));
                    }
                },
                None => {},
            }
        }
    }
    assert(t.seqs_ok());
    assert(t.partition_ok());
}

/// The tracking id a request effectively carries: an empty string counts as
/// absent.
pub open spec fn norm_tracking(t: Option<Seq<char>>) -> Option<Seq<char>> {
    match t {
        Some(s) => if s.len() == 0 {
            None
        } else {
            Some(s)
        },
        None => None,
    }
}

/// The chunk row a create request yields.
pub open spec fn spec_new_chunk(
    req: crate::model::CreateView,
    content: Seq<char>,
    ts: Option<i64>,
    author: UserId,
    dataset: DatasetId,
    id: ChunkId,
    seqno: u64,
    point: Option<PointId>,
    collision: Option<PointId>,
) -> ChunkView {
    ChunkView {
        id,
        author_id: author,
        content,
        chunk_html: req.chunk_html,
        link: req.link,
        tag_set: req.tag_set,
        metadata: req.metadata,
        tracking_id: norm_tracking(req.tracking_id),
        time_stamp: ts,
        dataset_id: dataset,
        weight: match req.weight {
            Some(w) => w,
            None => crate::model::NEUTRAL_WEIGHT,
        },
        vector_point_id: point,
        collision,
        created_seq: seqno,
    }
}

/// The bookmarks after a create that asked for a collection: membership is
/// recorded when the collection exists, and skipped silently otherwise.
pub open spec fn spec_with_bookmark(
    s: DatasetView,
    cid: Option<CollectionId>,
    chunk: ChunkId,
) -> Seq<Bookmark> {
    match cid {
        Some(c) => if s.has_collection(c) {
            s.bookmarks.push(Bookmark { collection_id: c, chunk_id: chunk })
        } else {
            s.bookmarks
        },
        None => s.bookmarks,
    }
}

/// Everything a create decides: the new state, the index writes owed, and
/// the response.
#[verifier::ext_equal]
pub struct CreateOutcomeView {
    pub state: DatasetView,
    pub actions: Seq<IndexAction>,
    pub result: Result<(ChunkView, bool), Fault>,
}

/// The complete create pipeline on the dataset model, with the timestamp
/// already resolved. Quota is checked first, then tracking-id conflicts;
/// then the collision decision routes the chunk: a collision whose point
/// resolves makes it a duplicate of that root (the point's embedding is
/// left as it is), a collision whose point resolves to no row is a torn
/// write (the orphan point is deleted and the ingest fails retryably), and
/// no collision makes it a root with a fresh point.
pub open spec fn spec_create_chunk(
    s: DatasetView,
    req: crate::model::CreateView,
    content: Seq<char>,
    ts: Option<i64>,
    author: UserId,
    probe: CollisionProbe,
    threshold: u32,
    fresh_chunk: ChunkId,
    fresh_point: PointId,
    quota: u64,
) -> CreateOutcomeView {
    let tr = norm_tracking(req.tracking_id);
    if s.chunks.len() >= quota {
        CreateOutcomeView { state: s, actions: Seq::empty(), result: Err(Fault::Quota) }
    } else if tr matches Some(t) && s.has_tracking(t) {
        CreateOutcomeView { state: s, actions: Seq::empty(), result: Err(Fault::Validation) }
    } else {
        match spec_collision(probe, threshold) {
            Some(p) => if s.owns_point(p) {
                let c = spec_new_chunk(
                    req,
                    content,
                    ts,
                    author,
                    s.dataset_id,
                    fresh_chunk,
                    s.next_seq,
                    None,
                    Some(p),
                );
                CreateOutcomeView {
                    state: DatasetView {
                        chunks: s.chunks.push(c),
                        bookmarks: spec_with_bookmark(s, req.collection_id, fresh_chunk),
                        next_seq: (s.next_seq + 1) as u64,
                        ..s
                    },
                    actions: seq![IndexAction::UpdatePointAuthor { point: p }],
                    result: Ok((c, true)),
                }
            } else {
                CreateOutcomeView {
                    state: s,
                    actions: seq![IndexAction::DeletePoint { point: p }],
                    result: Err(Fault::Consistency),
                }
            },
            None => {
                let c = spec_new_chunk(
                    req,
                    content,
                    ts,
                    author,
                    s.dataset_id,
                    fresh_chunk,
                    s.next_seq,
                    Some(fresh_point),
                    None,
                );
                CreateOutcomeView {
                    state: DatasetView {
                        chunks: s.chunks.push(c),
                        bookmarks: spec_with_bookmark(s, req.collection_id, fresh_chunk),
                        next_seq: (s.next_seq + 1) as u64,
                        ..s
                    },
                    actions: seq![
                        IndexAction::CreatePoint { point: fresh_point, chunk: fresh_chunk },
                    ],
                    result: Ok((c, false)),
                }
            },
        }
    }
}

/// The executable outcome `(actions, result)` together with the new state
/// matches what the spec pipeline decided.
pub open spec fn create_outcome_matches(
    o: CreateOutcomeView,
    new_state: DatasetView,
    actions: Seq<IndexAction>,
    result: Result<ReturnCreatedChunk, Fault>,
) -> bool {
    &&& new_state == o.state
    &&& actions == o.actions
    &&& match (result, o.result) {
        (Ok(rc), Ok(p)) => rc.chunk_metadata@ == p.0 && rc.duplicate == p.1,
        (Err(f1), Err(f2)) => f1 == f2,
        _ => false,
    }
}

/// Appending a chunk that is new in every keyed respect keeps the dataset
/// invariant.
proof fn lemma_push_preserves_wf(s: DatasetView, t: DatasetView, c: ChunkView)
    requires
        s.wf(),
        !s.has_chunk(c.id),
        c.tracking_id matches Some(tr) ==> !s.has_tracking(tr),
        c.vector_point_id matches Some(p) ==> !s.owns_point(p),
        c.linkage_ok(),
        c.collision matches Some(p) ==> s.owns_point(p),
        c.created_seq == s.next_seq,
        c.dataset_id == s.dataset_id,
        s.next_seq < u64::MAX,
        t.chunks == s.chunks.push(c),
        t.next_seq == s.next_seq + 1,
        t.dataset_id == s.dataset_id,
    ensures
        t.wf(),
{
    let n = s.chunks.len() as int;
    assert forall|i: int, j: int| 0 <= i < j < t.chunks.len() implies t.chunks[i].id != t
        .chunks[j].id by {
        if j == n {
            if t.chunks[i].id == c.id {
                assert(s.has_chunk(c.id));
            }
        }
    }
    assert forall|i: int, j: int|
        0 <= i < j < t.chunks.len() && t.chunks[i].tracking_id is Some implies t
        .chunks[i].tracking_id != t.chunks[j].tracking_id by {
        if j == n {
            if t.chunks[i].tracking_id == c.tracking_id {
                assert(s.has_tracking(c.tracking_id->0));
            }
        }
    }
    assert forall|i: int, j: int|
        0 <= i < j < t.chunks.len() && t.chunks[i].vector_point_id is Some implies t
        .chunks[i].vector_point_id != t.chunks[j].vector_point_id by {
        if j == n {
            if t.chunks[i].vector_point_id == c.vector_point_id {
                assert(s.owns_point(c.vector_point_id->0));
            }
        }
    }
    assert forall|i: int| 0 <= i < t.chunks.len() implies (#[trigger] t.chunks[i]).linkage_ok()
        && match t.chunks[i].collision {
        Some(p) => t.owns_point(p),
        None => true,
    } by {
        if i < n {
            assert(t.chunks[i] == s.chunks[i]);
            assert(s.chunks[i].linkage_ok());
            match s.chunks[i].collision {
                Some(p) => {
                    assert(s.owns_point(p));
                    let w = s.root_index_of(p);
                    assert(t.chunks[w].vector_point_id == Some(p));
                    assert(t.owns_point(p));
                },
                None => {},
            }
        } else {
            match c.collision {
                Some(p) => {
                    let w = s.root_index_of(p);
                    assert(t.chunks[w].vector_point_id == Some(p));
                    assert(t.owns_point(p));
                },
                None => {},
            }
        }
    }
    assert forall|i: int| 0 <= i < t.chunks.len() implies (#[trigger] t.chunks[i]).created_seq
        < t.next_seq by {
        if i < n {
            assert(s.chunks[i].created_seq < s.next_seq);
        }
    }
    assert forall|i: int, j: int| 0 <= i < j < t.chunks.len() implies t.chunks[i].created_seq != t
        .chunks[j].created_seq by {
        if j == n {
            assert(s.chunks[i].created_seq < s.next_seq);
        }
    }
    assert forall|i: int| 0 <= i < t.chunks.len() implies (#[trigger] t.chunks[i]).dataset_id
        == t.dataset_id by {
        if i < n {
            assert(s.chunks[i].dataset_id == s.dataset_id);
        }
    }
}

/// The tracking id to store: a clone of the request's, with an empty string
/// counting as absent.
fn norm_tracking_exec(t: &Option<String>) -> (r: Option<String>)
    ensures
        opt_str_view(r) == norm_tracking(opt_str_view(*t)),
{
    match t {
        Some(s) => if s.as_str().unicode_len() == 0 {
            None
        } else {
            Some(s.clone())
        },
        None => None,
    }
}

/// Builds the chunk row a create request yields.
fn build_new_chunk(
    data: &CreateChunkData,
    content: String,
    ts: Option<i64>,
    author: UserId,
    dataset: DatasetId,
    id: ChunkId,
    seqno: u64,
    point: Option<PointId>,
    collision: Option<PointId>,
) -> (c: ChunkMetadata)
    ensures
        c@ == spec_new_chunk(data@, content@, ts, author, dataset, id, seqno, point, collision),
{
    let weight = match data.weight {
        Some(w) => w,
        None => crate::model::NEUTRAL_WEIGHT,
    };
    ChunkMetadata {
        id,
        author_id: author,
        content,
        chunk_html: crate::model::clone_opt_string(&data.chunk_html),
        link: crate::model::clone_opt_string(&data.link),
        tag_set: crate::model::clone_tags(&data.tag_set),
        metadata: crate::model::clone_entries(&data.metadata),
        tracking_id: norm_tracking_exec(&data.tracking_id),
        time_stamp: ts,
        dataset_id: dataset,
        weight,
        vector_point_id: point,
        collision,
        created_seq: seqno,
    }
}

/// Builds the chunk row an update request leaves behind.
fn build_patched_chunk(
    c: &ChunkMetadata,
    link: &Option<String>,
    chunk_html: &Option<String>,
    metadata: &Option<Vec<MetadataEntry>>,
    tracking: Option<String>,
    content: String,
    ts: Option<i64>,
    weight: Option<u32>,
) -> (r: ChunkMetadata)
    ensures
        r@ == spec_patched_chunk(
            c@,
            opt_str_view(*link),
            opt_str_view(*chunk_html),
            crate::model::opt_entries_view(*metadata),
            opt_str_view(tracking),
            content@,
            ts,
            weight,
        ),
{
    ChunkMetadata {
        id: c.id,
        author_id: c.author_id,
        content,
        chunk_html: match chunk_html {
            Some(h) => Some(h.clone()),
            None => crate::model::clone_opt_string(&c.chunk_html),
        },
        link: match link {
            Some(l) => Some(l.clone()),
            None => crate::model::clone_opt_string(&c.link),
        },
        tag_set: crate::model::clone_tags(&c.tag_set),
        metadata: match metadata {
            Some(m) => crate::model::clone_entries(m),
            None => crate::model::clone_entries(&c.metadata),
        },
        tracking_id: tracking,
        time_stamp: match ts {
            Some(t) => Some(t),
            None => c.time_stamp,
        },
        dataset_id: c.dataset_id,
        weight: match weight {
            Some(w) => w,
            None => c.weight,
        },
        vector_point_id: c.vector_point_id,
        collision: c.collision,
        created_seq: c.created_seq,
    }
}

impl DatasetState {
    /// The update-by-id pipeline, with the timestamp already resolved:
    /// exactly [`spec_update_chunk`] on the dataset model.
    pub fn update_chunk_resolved(
        &mut self,
        data: &crate::model::UpdateChunkData,
        content: String,
        time_stamp: Option<i64>,
        user: UserId,
    ) -> (r: (Vec<IndexAction>, Result<(), Fault>))
        requires
            old(self)@.wf(),
        ensures
            final(self)@.wf(),
            update_outcome_matches(
                spec_update_chunk(old(self)@, data@, content@, time_stamp, user),
                final(self)@,
                r.0@,
                r.1,
            ),
    {
        let ghost s = self@;
        let mut actions: Vec<IndexAction> = Vec::new();
        proof {
            assert(actions@ =~= Seq::<IndexAction>::empty());
        }
        let i = match self.position_by_id(data.chunk_uuid) {
            Some(i) => i,
            None => {
                return (actions, Err(Fault::NotFound));
            },
        };
        proof {
            self.lemma_index_of(i as int);
        }
        if self.chunks[i].author_id != user {
            return (actions, Err(Fault::Forbidden));
        }
        let tracking = norm_tracking_exec(&data.tracking_id);
        if let Some(t) = &tracking {
            match self.position_by_tracking(t) {
                Some(j) => {
                    if j != i {
                        return (actions, Err(Fault::Validation));
                    }
                    proof {
                        assert forall|m: int|
                            0 <= m < s.chunks.len() && m != i as int implies s
                            .chunks[m].tracking_id != Some(t@) by {
                            if s.chunks[m].tracking_id == Some(t@) {
                                assert(s.chunks[i as int].tracking_id == Some(t@));
                            }
                        }
                    }
                },
                None => {},
            }
        }
        // An absent key keeps the stored one, which only this row carries.
        let tracking = match tracking {
            Some(t) => Some(t),
            None => {
                proof {
                    if s.chunks[i as int].tracking_id is Some {
                        let tr = s.chunks[i as int].tracking_id->0;
                        assert forall|m: int|
                            0 <= m < s.chunks.len() && m != i as int implies s
                            .chunks[m].tracking_id != Some(tr) by {
                            if s.chunks[m].tracking_id == Some(tr) {
                                assert(s.chunks[i as int].tracking_id == Some(tr));
                            }
                        }
                    }
                }
                crate::model::clone_opt_string(&self.chunks[i].tracking_id)
            },
        };
        let point = self.chunks[i].vector_point_id;
        let chunk_id = self.chunks[i].id;
        let c2 = build_patched_chunk(
            &self.chunks[i],
            &data.link,
            &data.chunk_html,
            &data.metadata,
            tracking,
            content,
            time_stamp,
            data.weight,
        );
        let ghost c2v = c2@;
        self.chunks.set(i, c2);
        proof {
            lemma_chunks_view_update(old(self).chunks@, i as int, old(self).chunks@[i as int]);
        }
        match point {
            Some(p) => {
                actions.push(IndexAction::UpdatePointEmbedding { point: p, chunk: chunk_id });
                proof {
                    assert(actions@ =~= seq![
                        IndexAction::UpdatePointEmbedding { point: p, chunk: chunk_id },
                    ]);
                }
            },
            None => {},
        }
        proof {
            assert(self@.chunks =~= s.chunks.update(i as int, c2v));
            lemma_update_wf(s, self@, i as int, c2v);
            assert(self@ =~~= spec_update_chunk(s, data@, content@, time_stamp, user).state);
        }
        (actions, Ok(()))
    }

    /// Update a chunk by id. The timestamp string, if given, goes through
    /// the outside datetime parser; a string it rejects is a validation
    /// fault and nothing changes. With the parse out of the way the outcome
    /// is exactly [`spec_update_chunk`].
    pub fn update_chunk(
        &mut self,
        data: &crate::model::UpdateChunkData,
        content: String,
        user: UserId,
    ) -> (r: (Vec<IndexAction>, Result<(), Fault>))
        requires
            old(self)@.wf(),
        ensures
            final(self)@.wf(),
            data@.time_stamp is None ==> update_outcome_matches(
                spec_update_chunk(old(self)@, data@, content@, None, user),
                final(self)@,
                r.0@,
                r.1,
            ),
            data@.time_stamp is Some ==> ((exists|t: i64|
                update_outcome_matches(
                    spec_update_chunk(old(self)@, data@, content@, Some(t), user),
                    final(self)@,
                    r.0@,
                    r.1,
                )) || (final(self)@ == old(self)@ && r.0@ == Seq::<IndexAction>::empty() && r.1
                == Err::<(), Fault>(Fault::Validation))),
    {
        let ghost pre = self@;
        let time_stamp = match &data.time_stamp {
            Some(ts) => {
                match crate::time::parse_timestamp(ts.as_str()) {
                    Ok(v) => Some(v),
                    Err(f) => {
                        let actions: Vec<IndexAction> = Vec::new();
                        proof {
                            assert(actions@ =~= Seq::<IndexAction>::empty());
                        }
                        return (actions, Err(f));
                    },
                }
            },
            None => None,
        };
        let ghost ts = time_stamp;
        let r = self.update_chunk_resolved(data, content, time_stamp, user);
        proof {
            if data@.time_stamp is Some {
                let t = ts->0;
                assert(update_outcome_matches(
                    spec_update_chunk(pre, data@, content@, Some(t), user),
                    self@,
                    r.0@,
                    r.1,
                ));
            }
        }
        r
    }

    /// The update-by-tracking-id pipeline, with the timestamp already
    /// resolved: exactly [`spec_update_chunk_by_tracking_id`] on the
    /// dataset model.
    pub fn update_chunk_by_tracking_id_resolved(
        &mut self,
        data: &crate::model::UpdateChunkByTrackingIdData,
        content: String,
        time_stamp: Option<i64>,
        user: UserId,
    ) -> (r: (Vec<IndexAction>, Result<(), Fault>))
        requires
            old(self)@.wf(),
        ensures
            final(self)@.wf(),
            update_outcome_matches(
                spec_update_chunk_by_tracking_id(old(self)@, data@, content@, time_stamp, user),
                final(self)@,
                r.0@,
                r.1,
            ),
    {
        let ghost s = self@;
        let mut actions: Vec<IndexAction> = Vec::new();
        proof {
            assert(actions@ =~= Seq::<IndexAction>::empty());
        }
        if data.tracking_id.as_str().unicode_len() == 0 {
            return (actions, Err(Fault::Validation));
        }
        let i = match self.position_by_tracking(&data.tracking_id) {
            Some(i) => i,
            None => {
                return (actions, Err(Fault::NotFound));
            },
        };
        proof {
            self.lemma_index_of_tracking(i as int);
        }
        if self.chunks[i].author_id != user {
            return (actions, Err(Fault::Forbidden));
        }
        let point = self.chunks[i].vector_point_id;
        let chunk_id = self.chunks[i].id;
        let c2 = build_patched_chunk(
            &self.chunks[i],
            &data.link,
            &data.chunk_html,
            &data.metadata,
            Some(data.tracking_id.clone()),
            content,
            time_stamp,
            data.weight,
        );
        let ghost c2v = c2@;
        self.chunks.set(i, c2);
        proof {
            lemma_chunks_view_update(old(self).chunks@, i as int, old(self).chunks@[i as int]);
        }
        match point {
            Some(p) => {
                actions.push(IndexAction::UpdatePointEmbedding { point: p, chunk: chunk_id });
                proof {
                    assert(actions@ =~= seq![
                        IndexAction::UpdatePointEmbedding { point: p, chunk: chunk_id },
                    ]);
                }
            },
            None => {},
        }
        proof {
            assert forall|m: int| 0 <= m < s.chunks.len() && m != i as int implies s
                .chunks[m].tracking_id != Some(data.tracking_id@) by {
                if s.chunks[m].tracking_id == Some(data.tracking_id@) {
                    assert(s.chunks[i as int].tracking_id == Some(data.tracking_id@));
                }
            }
            assert(self@.chunks =~= s.chunks.update(i as int, c2v));
            lemma_update_wf(s, self@, i as int, c2v);
            assert(self@ =~~= spec_update_chunk_by_tracking_id(
                s,
                data@,
                content@,
                time_stamp,
                user,
            ).state);
        }
        (actions, Ok(()))
    }

    /// Update a chunk by tracking id; the timestamp goes through the
    /// outside datetime parser as in [`Self::update_chunk`].
    pub fn update_chunk_by_tracking_id(
        &mut self,
        data: &crate::model::UpdateChunkByTrackingIdData,
        content: String,
        user: UserId,
    ) -> (r: (Vec<IndexAction>, Result<(), Fault>))
        requires
            old(self)@.wf(),
        ensures
            final(self)@.wf(),
            data@.time_stamp is None ==> update_outcome_matches(
                spec_update_chunk_by_tracking_id(old(self)@, data@, content@, None, user),
                final(self)@,
                r.0@,
                r.1,
            ),
            data@.time_stamp is Some ==> ((exists|t: i64|
                update_outcome_matches(
                    spec_update_chunk_by_tracking_id(old(self)@, data@, content@, Some(t), user),
                    final(self)@,
                    r.0@,
                    r.1,
                )) || (final(self)@ == old(self)@ && r.0@ == Seq::<IndexAction>::empty() && r.1
                == Err::<(), Fault>(Fault::Validation))),
    {
        let ghost pre = self@;
        let time_stamp = match &data.time_stamp {
            Some(ts) => {
                match crate::time::parse_timestamp(ts.as_str()) {
                    Ok(v) => Some(v),
                    Err(f) => {
                        let actions: Vec<IndexAction> = Vec::new();
                        proof {
                            assert(actions@ =~= Seq::<IndexAction>::empty());
                        }
                        return (actions, Err(f));
                    },
                }
            },
            None => None,
        };
        let ghost ts = time_stamp;
        let r = self.update_chunk_by_tracking_id_resolved(data, content, time_stamp, user);
        proof {
            if data@.time_stamp is Some {
                let t = ts->0;
                assert(update_outcome_matches(
                    spec_update_chunk_by_tracking_id(pre, data@, content@, Some(t), user),
                    self@,
                    r.0@,
                    r.1,
                ));
            }
        }
        r
    }

    /// Records membership of `chunk` in the requested collection, when that
    /// collection exists.
    fn record_bookmark(&mut self, cid: &Option<CollectionId>, chunk: ChunkId)
        ensures
            final(self).dataset_id == old(self).dataset_id,
            final(self).chunks == old(self).chunks,
            final(self).collections == old(self).collections,
            final(self).next_seq == old(self).next_seq,
            final(self).bookmarks@ == spec_with_bookmark(old(self)@, *cid, chunk),
    {
        match cid {
            Some(c) => {
                if self.collection_exists(*c) {
                    self.bookmarks.push(Bookmark { collection_id: *c, chunk_id: chunk });
                }
            },
            None => {},
        }
    }

    /// The complete create pipeline, with the timestamp already resolved:
    /// exactly [`spec_create_chunk`] on the dataset model. The fresh ids
    /// must be unused; the caller draws them and checks that against this
    /// state.
    pub fn create_chunk_resolved(
        &mut self,
        data: &CreateChunkData,
        content: String,
        time_stamp: Option<i64>,
        author: UserId,
        probe: &CollisionProbe,
        threshold: u32,
        fresh_chunk: ChunkId,
        fresh_point: PointId,
        quota: u64,
    ) -> (r: (Vec<IndexAction>, Result<ReturnCreatedChunk, Fault>))
        requires
            old(self)@.wf(),
            !old(self)@.has_chunk(fresh_chunk),
            !old(self)@.owns_point(fresh_point),
            old(self)@.next_seq < u64::MAX,
        ensures
            final(self)@.wf(),
            create_outcome_matches(
                spec_create_chunk(
                    old(self)@,
                    data@,
                    content@,
                    time_stamp,
                    author,
                    *probe,
                    threshold,
                    fresh_chunk,
                    fresh_point,
                    quota,
                ),
                final(self)@,
                r.0@,
                r.1,
            ),
    {
        let ghost s = self@;
        let ghost o = spec_create_chunk(
            s,
            data@,
            content@,
            time_stamp,
            author,
            *probe,
            threshold,
            fresh_chunk,
            fresh_point,
            quota,
        );
        let mut actions: Vec<IndexAction> = Vec::new();
        proof {
            assert(actions@ =~= Seq::<IndexAction>::empty());
        }
        if self.chunks.len() as u64 >= quota {
            return (actions, Err(Fault::Quota));
        }
        let tracking = norm_tracking_exec(&data.tracking_id);
        if let Some(t) = &tracking {
            if self.position_by_tracking(t).is_some() {
                return (actions, Err(Fault::Validation));
            }
        }
        match detect_collision(probe, threshold) {
            Some(p) => {
                match self.position_by_point(p) {
                    Some(_) => {
                        let c = build_new_chunk(
                            data,
                            content,
                            time_stamp,
                            author,
                            self.dataset_id,
                            fresh_chunk,
                            self.next_seq,
                            None,
                            Some(p),
                        );
                        let stored = c.clone();
                        self.record_bookmark(&data.collection_id, fresh_chunk);
                        self.chunks.push(stored);
                        self.next_seq = self.next_seq + 1;
                        actions.push(IndexAction::UpdatePointAuthor { point: p });
                        proof {
                            assert(self@.chunks =~= s.chunks.push(c@));
                            assert(self@ =~~= o.state);
                            lemma_push_preserves_wf(s, self@, c@);
                            assert(actions@ =~= seq![
                                IndexAction::UpdatePointAuthor { point: p },
                            ]);
                        }
                        (actions, Ok(ReturnCreatedChunk { chunk_metadata: c, duplicate: true }))
                    },
                    None => {
                        actions.push(IndexAction::DeletePoint { point: p });
                        proof {
                            assert(actions@ =~= seq![IndexAction::DeletePoint { point: p }]);
                        }
                        (actions, Err(Fault::Consistency))
                    },
                }
            },
            None => {
                let c = build_new_chunk(
                    data,
                    content,
                    time_stamp,
                    author,
                    self.dataset_id,
                    fresh_chunk,
                    self.next_seq,
                    Some(fresh_point),
                    None,
                );
                let stored = c.clone();
                self.record_bookmark(&data.collection_id, fresh_chunk);
                self.chunks.push(stored);
                self.next_seq = self.next_seq + 1;
                actions.push(IndexAction::CreatePoint { point: fresh_point, chunk: fresh_chunk });
                proof {
                    assert(self@.chunks =~= s.chunks.push(c@));
                    assert(self@ =~~= o.state);
                    lemma_push_preserves_wf(s, self@, c@);
                    assert(actions@ =~= seq![
                        IndexAction::CreatePoint { point: fresh_point, chunk: fresh_chunk },
                    ]);
                }
                (actions, Ok(ReturnCreatedChunk { chunk_metadata: c, duplicate: false }))
            },
        }
    }

    /// The position of the most recently created duplicate of point `p`.
    fn position_latest_dup(&self, p: PointId) -> (r: Option<usize>)
        ensures
            match r {
                Some(i) => i < self@.chunks.len() && is_latest_dup_in(self@.chunks, p, i as int),
                None => !has_dup_in(self@.chunks, p),
            },
    {
        let mut best: Option<usize> = None;
        let mut j: usize = 0;
        while j < self.chunks.len()
            invariant
                0 <= j <= self@.chunks.len(),
                match best {
                    Some(b) => b < j && self@.chunks[b as int].collision == Some(p) && forall|
                        m: int,
                    |
                        0 <= m < j && self@.chunks[m].collision == Some(p)
                            ==> self@.chunks[m].created_seq <= self@.chunks[b as int].created_seq,
                    None => forall|m: int| 0 <= m < j ==> self@.chunks[m].collision != Some(p),
                },
            decreases self@.chunks.len() - j,
        {
            let is_dup = match self.chunks[j].collision {
                Some(q) => q == p,
                None => false,
            };
            if is_dup {
                match best {
                    Some(b) => {
                        if self.chunks[j].created_seq > self.chunks[b].created_seq {
                            best = Some(j);
                        }
                    },
                    None => {
                        best = Some(j);
                    },
                }
            }
            j = j + 1;
        }
        best
    }

    /// Rewrites the rows so that the chunk at `k` becomes the root owning
    /// `new_p` and the other duplicates of `old_p` follow it.
    fn promote_group(&mut self, old_p: PointId, new_p: PointId, k: usize)
        requires
            k < old(self)@.chunks.len(),
        ensures
            final(self).dataset_id == old(self).dataset_id,
            final(self).collections == old(self).collections,
            final(self).bookmarks == old(self).bookmarks,
            final(self).next_seq == old(self).next_seq,
            final(self)@.chunks == spec_promote(old(self)@.chunks, old_p, new_p, k as int),
    {
        let ghost target = spec_promote(self@.chunks, old_p, new_p, k as int);
        let mut out: Vec<ChunkMetadata> = Vec::new();
        let mut j: usize = 0;
        let n = self.chunks.len();
        proof {
            assert(chunks_view(out@) =~= target.take(0));
        }
        while j < n
            invariant
                0 <= j <= n,
                n == self.chunks@.len(),
                k < n,
                target == spec_promote(self@.chunks, old_p, new_p, k as int),
                chunks_view(out@) =~= target.take(j as int),
            decreases n - j,
        {
            let mut c = self.chunks[j].clone();
            if j == k {
                c.vector_point_id = Some(new_p);
                c.collision = None;
            } else {
                let follows = match c.collision {
                    Some(q) => q == old_p,
                    None => false,
                };
                if follows {
                    c.collision = Some(new_p);
                }
            }
            proof {
                assert(c@ == target[j as int]);
            }
            let ghost prev = chunks_view(out@);
            out.push(c);
            j = j + 1;
            proof {
                assert(chunks_view(out@) =~= prev.push(target[j - 1]));
                assert(prev.push(target[j - 1]) =~= target.take(j as int));
            }
        }
        proof {
            assert(target.take(n as int) =~= target);
        }
        self.chunks = out;
    }

    /// Deletes the row at `pos`, with re-rooting when it was the root of a
    /// duplicate group: exactly the successful arm of
    /// [`spec_delete_chunk`].
    fn delete_inner(&mut self, pos: usize, fresh_point: PointId) -> (actions: Vec<IndexAction>)
        requires
            old(self)@.wf(),
            pos < old(self)@.chunks.len(),
            !old(self)@.owns_point(fresh_point),
        ensures
            final(self)@.wf(),
            ({
                let o = spec_delete_chunk(
                    old(self)@,
                    old(self)@.chunks[pos as int].id,
                    fresh_point,
                );
                &&& final(self)@ == o.state
                &&& actions@ == o.actions
                &&& o.result == Ok::<(), Fault>(())
            }),
    {
        let ghost s = self@;
        proof {
            self.lemma_index_of(pos as int);
        }
        let c_point = self.chunks[pos].vector_point_id;
        self.chunks.remove(pos);
        proof {
            lemma_chunks_view_remove(old(self).chunks@, pos as int);
            assert(self@.chunks =~= s.chunks.remove(pos as int));
        }
        let ghost rem = s.chunks.remove(pos as int);
        let mut actions: Vec<IndexAction> = Vec::new();
        proof {
            assert(actions@ =~= Seq::<IndexAction>::empty());
        }
        match c_point {
            None => {
                proof {
                    lemma_remove_wf(s, self@, pos as int);
                    assert(self@ =~~= spec_delete_chunk(s, s.chunks[pos as int].id,
                    fresh_point).state);
                }
                actions
            },
            Some(p) => {
                match self.position_latest_dup(p) {
                    Some(k) => {
                        let promoted_id = self.chunks[k].id;
                        self.promote_group(p, fresh_point, k);
                        actions.push(IndexAction::DeletePoint { point: p });
                        actions.push(
                            IndexAction::CreatePoint { point: fresh_point, chunk: promoted_id },
                        );
                        proof {
                            lemma_remove_base(s, pos as int);
                            lemma_latest_dup_unique(rem, p, k as int);
                            lemma_promote_wf(s, self@, pos as int, fresh_point, k as int);
                            assert(self@ =~~= spec_delete_chunk(s, s.chunks[pos as int].id,
                            fresh_point).state);
                            assert(actions@ =~= seq![
                                IndexAction::DeletePoint { point: p },
                                IndexAction::CreatePoint {
                                    point: fresh_point,
                                    chunk: rem[k as int].id,
                                },
                            ]);
                        }
                        actions
                    },
                    None => {
                        actions.push(IndexAction::DeletePoint { point: p });
                        proof {
                            lemma_remove_wf(s, self@, pos as int);
                            assert(self@ =~~= spec_delete_chunk(s, s.chunks[pos as int].id,
                            fresh_point).state);
                            assert(actions@ =~= seq![IndexAction::DeletePoint { point: p }]);
                        }
                        actions
                    },
                }
            },
        }
    }

    /// Delete a chunk by id, after checking the caller owns it. Deleting a
    /// root with duplicates promotes the most recently created one, and
    /// the old point's deletion and the new point's creation are both owed
    /// before the response is returned.
    pub fn delete_chunk(&mut self, chunk_id: ChunkId, user_id: UserId, fresh_point: PointId) -> (r:
        (Vec<IndexAction>, Result<(), Fault>))
        requires
            old(self)@.wf(),
            !old(self)@.owns_point(fresh_point),
        ensures
            final(self)@.wf(),
            ({
                let s = old(self)@;
                if s.has_chunk(chunk_id) && s.chunk_of(chunk_id).author_id == user_id {
                    delete_outcome_matches(
                        spec_delete_chunk(s, chunk_id, fresh_point),
                        final(self)@,
                        r.0@,
                        r.1,
                    )
                } else {
                    &&& final(self)@ == s
                    &&& r.0@ == Seq::<IndexAction>::empty()
                    &&& r.1 == (if s.has_chunk(chunk_id) {
                        Err::<(), Fault>(Fault::Forbidden)
                    } else {
                        Err::<(), Fault>(Fault::NotFound)
                    })
                }
            }),
    {
        let empty: Vec<IndexAction> = Vec::new();
        proof {
            assert(empty@ =~= Seq::<IndexAction>::empty());
        }
        match self.position_by_id(chunk_id) {
            None => (empty, Err(Fault::NotFound)),
            Some(i) => {
                proof {
                    self.lemma_index_of(i as int);
                }
                if self.chunks[i].author_id != user_id {
                    return (empty, Err(Fault::Forbidden));
                }
                let actions = self.delete_inner(i, fresh_point);
                (actions, Ok(()))
            },
        }
    }

    /// Delete a chunk by tracking id, after checking the caller owns it;
    /// otherwise as [`Self::delete_chunk`].
    pub fn delete_chunk_by_tracking_id(
        &mut self,
        tracking_id: &String,
        user_id: UserId,
        fresh_point: PointId,
    ) -> (r: (Vec<IndexAction>, Result<(), Fault>))
        requires
            old(self)@.wf(),
            !old(self)@.owns_point(fresh_point),
        ensures
            final(self)@.wf(),
            ({
                let s = old(self)@;
                if s.has_tracking(tracking_id@) && s.chunk_of_tracking(tracking_id@).author_id
                    == user_id {
                    delete_outcome_matches(
                        spec_delete_chunk(s, s.chunk_of_tracking(tracking_id@).id, fresh_point),
                        final(self)@,
                        r.0@,
                        r.1,
                    )
                } else {
                    &&& final(self)@ == s
                    &&& r.0@ == Seq::<IndexAction>::empty()
                    &&& r.1 == (if s.has_tracking(tracking_id@) {
                        Err::<(), Fault>(Fault::Forbidden)
                    } else {
                        Err::<(), Fault>(Fault::NotFound)
                    })
                }
            }),
    {
        let empty: Vec<IndexAction> = Vec::new();
        proof {
            assert(empty@ =~= Seq::<IndexAction>::empty());
        }
        match self.position_by_tracking(tracking_id) {
            None => (empty, Err(Fault::NotFound)),
            Some(i) => {
                proof {
                    self.lemma_index_of_tracking(i as int);
                    self.lemma_index_of(i as int);
                }
                if self.chunks[i].author_id != user_id {
                    return (empty, Err(Fault::Forbidden));
                }
                let actions = self.delete_inner(i, fresh_point);
                (actions, Ok(()))
            },
        }
    }

    /// Create a new chunk. The timestamp string, if given, goes through the
    /// outside datetime parser; a string it rejects is a validation fault
    /// and nothing changes. With the parse out of the way the outcome is
    /// exactly [`spec_create_chunk`].
    pub fn create_chunk(
        &mut self,
        data: &CreateChunkData,
        content: String,
        author: UserId,
        probe: &CollisionProbe,
        threshold: u32,
        fresh_chunk: ChunkId,
        fresh_point: PointId,
        quota: u64,
    ) -> (r: (Vec<IndexAction>, Result<ReturnCreatedChunk, Fault>))
        requires
            old(self)@.wf(),
            !old(self)@.has_chunk(fresh_chunk),
            !old(self)@.owns_point(fresh_point),
            old(self)@.next_seq < u64::MAX,
        ensures
            final(self)@.wf(),
            data@.time_stamp is None ==> create_outcome_matches(
                spec_create_chunk(
                    old(self)@,
                    data@,
                    content@,
                    None,
                    author,
                    *probe,
                    threshold,
                    fresh_chunk,
                    fresh_point,
                    quota,
                ),
                final(self)@,
                r.0@,
                r.1,
            ),
            data@.time_stamp is Some ==> ((exists|t: i64|
                create_outcome_matches(
                    spec_create_chunk(
                        old(self)@,
                        data@,
                        content@,
                        Some(t),
                        author,
                        *probe,
                        threshold,
                        fresh_chunk,
                        fresh_point,
                        quota,
                    ),
                    final(self)@,
                    r.0@,
                    r.1,
                )) || (final(self)@ == old(self)@ && r.0@ == Seq::<IndexAction>::empty() && r.1
                == Err::<ReturnCreatedChunk, Fault>(Fault::Validation))),
    {
        let ghost pre = self@;
        let time_stamp = match &data.time_stamp {
            Some(ts) => {
                match crate::time::parse_timestamp(ts.as_str()) {
                    Ok(v) => Some(v),
                    Err(f) => {
                        let actions: Vec<IndexAction> = Vec::new();
                        proof {
                            assert(actions@ =~= Seq::<IndexAction>::empty());
                        }
                        return (actions, Err(f));
                    },
                }
            },
            None => None,
        };
        let ghost ts = time_stamp;
        let r = self.create_chunk_resolved(
            data,
            content,
            time_stamp,
            author,
            probe,
            threshold,
            fresh_chunk,
            fresh_point,
            quota,
        );
        proof {
            if data@.time_stamp is Some {
                let t = ts->0;
                assert(create_outcome_matches(
                    spec_create_chunk(
                        pre,
                        data@,
                        content@,
                        Some(t),
                        author,
                        *probe,
                        threshold,
                        fresh_chunk,
                        fresh_point,
                        quota,
                    ),
                    self@,
                    r.0@,
                    r.1,
                ));
            }
        }
        r
    }
}

/// Law: a chunk whose embedding the index reports as at least
/// threshold-similar to an existing point is merged into that point's
/// group. It gets no independent vector point, the group's root is
/// unchanged and still owns the shared point (so a search hitting that
/// point returns the root), and the only index write is an authorship
/// touch — the point's embedding is never replaced.
pub proof fn lemma_near_duplicate_merges(
    s: DatasetView,
    req: crate::model::CreateView,
    content: Seq<char>,
    ts: Option<i64>,
    author: UserId,
    probe: CollisionProbe,
    threshold: u32,
    fresh_chunk: ChunkId,
    fresh_point: PointId,
    quota: u64,
)
    requires
        s.wf(),
        s.next_seq < u64::MAX,
        !s.has_chunk(fresh_chunk),
        probe.nearest matches Some(n) && n.score >= threshold && s.owns_point(n.point),
        s.chunks.len() < quota,
        norm_tracking(req.tracking_id) matches Some(t) ==> !s.has_tracking(t),
    ensures
        ({
            let o = spec_create_chunk(
                s,
                req,
                content,
                ts,
                author,
                probe,
                threshold,
                fresh_chunk,
                fresh_point,
                quota,
            );
            let p = probe.nearest->0.point;
            &&& o.result matches Ok(pair) && pair.1 == true && pair.0.vector_point_id is None
                && pair.0.collision == Some(p) && pair.0.id == fresh_chunk
            &&& o.state.chunks == s.chunks.push(o.result->Ok_0.0)
            &&& o.state.owns_point(p) && o.state.root_of(p) == s.root_of(p)
            &&& o.actions == seq![IndexAction::UpdatePointAuthor { point: p }]
            &&& o.state.wf()
        }),
{
    let o = spec_create_chunk(
        s,
        req,
        content,
        ts,
        author,
        probe,
        threshold,
        fresh_chunk,
        fresh_point,
        quota,
    );
    let p = probe.nearest->0.point;
    let c = spec_new_chunk(req, content, ts, author, s.dataset_id, fresh_chunk, s.next_seq,
    None, Some(p));
    lemma_push_preserves_wf(s, o.state, c);
    let m = s.root_index_of(p);
    assert(s.chunks[m].vector_point_id == Some(p));
    let t = o.state;
    assert(t.chunks[m] == s.chunks[m]);
    assert(t.owns_point(p));
    let m2 = t.root_index_of(p);
    assert(t.chunks[m2].vector_point_id == Some(p));
    if m2 != m {
        if m2 < s.chunks.len() {
            assert(s.chunks[m2].vector_point_id == Some(p));
            assert(false);
        } else {
            assert(t.chunks[m2] == c);
            assert(false);
        }
    }
}

/// Law: a chunk whose embedding collides with nothing becomes a root with
/// its own fresh vector point; two such chunks ingested one after the other
/// each own their own point and each is found by its point, independently.
pub proof fn lemma_distinct_chunks_stay_independent(
    s: DatasetView,
    req_a: crate::model::CreateView,
    content_a: Seq<char>,
    ts_a: Option<i64>,
    req_b: crate::model::CreateView,
    content_b: Seq<char>,
    ts_b: Option<i64>,
    author: UserId,
    probe_a: CollisionProbe,
    probe_b: CollisionProbe,
    threshold: u32,
    chunk_a: ChunkId,
    point_a: PointId,
    chunk_b: ChunkId,
    point_b: PointId,
    quota: u64,
)
    requires
        s.wf(),
        s.next_seq < u64::MAX - 1,
        spec_collision(probe_a, threshold) is None,
        spec_collision(probe_b, threshold) is None,
        s.chunks.len() + 2 <= quota,
        !s.has_chunk(chunk_a),
        !s.has_chunk(chunk_b),
        chunk_a != chunk_b,
        !s.owns_point(point_a),
        !s.owns_point(point_b),
        point_a != point_b,
        norm_tracking(req_a.tracking_id) is None,
        norm_tracking(req_b.tracking_id) is None,
    ensures
        ({
            let oa = spec_create_chunk(
                s,
                req_a,
                content_a,
                ts_a,
                author,
                probe_a,
                threshold,
                chunk_a,
                point_a,
                quota,
            );
            let ob = spec_create_chunk(
                oa.state,
                req_b,
                content_b,
                ts_b,
                author,
                probe_b,
                threshold,
                chunk_b,
                point_b,
                quota,
            );
            &&& oa.result matches Ok(pa) && pa.1 == false && pa.0.vector_point_id == Some(point_a)
            &&& ob.result matches Ok(pb) && pb.1 == false && pb.0.vector_point_id == Some(point_b)
            &&& ob.state.owns_point(point_a) && ob.state.root_of(point_a).id == chunk_a
            &&& ob.state.owns_point(point_b) && ob.state.root_of(point_b).id == chunk_b
            &&& ob.state.wf()
        }),
{
    let oa = spec_create_chunk(
        s,
        req_a,
        content_a,
        ts_a,
        author,
        probe_a,
        threshold,
        chunk_a,
        point_a,
        quota,
    );
    let ca = spec_new_chunk(req_a, content_a, ts_a, author, s.dataset_id, chunk_a, s.next_seq,
    Some(point_a), None);
    lemma_push_preserves_wf(s, oa.state, ca);
    let s1 = oa.state;
    assert(s1.chunks[s.chunks.len() as int] == ca);
    assert(!s1.has_chunk(chunk_b)) by {
        if s1.has_chunk(chunk_b) {
            let i = choose|i: int| 0 <= i < s1.chunks.len() && s1.chunks[i].id == chunk_b;
            if i < s.chunks.len() {
                assert(s.has_chunk(chunk_b));
            }
            assert(false);
        }
    }
    assert(!s1.owns_point(point_b)) by {
        if s1.owns_point(point_b) {
            let i = choose|i: int|
                0 <= i < s1.chunks.len() && s1.chunks[i].vector_point_id == Some(point_b);
            if i < s.chunks.len() {
                assert(s.owns_point(point_b));
            }
            assert(false);
        }
    }
    let ob = spec_create_chunk(
        s1,
        req_b,
        content_b,
        ts_b,
        author,
        probe_b,
        threshold,
        chunk_b,
        point_b,
        quota,
    );
    let cb = spec_new_chunk(req_b, content_b, ts_b, author, s1.dataset_id, chunk_b, s1.next_seq,
    Some(point_b), None);
    lemma_push_preserves_wf(s1, ob.state, cb);
    let t = ob.state;
    let na = s.chunks.len() as int;
    let nb = s1.chunks.len() as int;
    assert(t.chunks[na] == ca);
    assert(t.chunks[nb] == cb);
    assert(t.owns_point(point_a));
    assert(t.owns_point(point_b));
    let ma = t.root_index_of(point_a);
    assert(t.chunks[ma].vector_point_id == Some(point_a));
    if ma != na {
        if ma < na {
            assert(s.chunks[ma].vector_point_id == Some(point_a));
            assert(s.owns_point(point_a));
        }
        assert(false);
    }
    let mb = t.root_index_of(point_b);
    assert(t.chunks[mb].vector_point_id == Some(point_b));
    if mb != nb {
        if mb < na {
            assert(s.chunks[mb].vector_point_id == Some(point_b));
            assert(s.owns_point(point_b));
        }
        assert(false);
    }
}

/// Law: deleting the root of a group with at least one duplicate promotes
/// the most recently created remaining duplicate to root with a freshly
/// created vector point, and both index writes — the old point's deletion
/// and the new point's creation — are owed in the same step; deleting a
/// root with no duplicates leaves no successor, and nothing in the
/// remaining dataset references the deleted point.
pub proof fn lemma_delete_root_reroots(s: DatasetView, id: ChunkId, fresh_point: PointId)
    requires
        s.wf(),
        s.has_chunk(id),
        s.chunk_of(id).vector_point_id is Some,
        !s.owns_point(fresh_point),
    ensures
        ({
            let o = spec_delete_chunk(s, id, fresh_point);
            let p = s.chunk_of(id).vector_point_id->0;
            let rem = s.chunks.remove(s.index_of(id));
            &&& o.result == Ok::<(), Fault>(())
            &&& has_dup_in(rem, p) ==> {
                let k = latest_dup_in(rem, p);
                &&& is_latest_dup_in(rem, p, k)
                &&& o.state.chunks[k].vector_point_id == Some(fresh_point)
                &&& o.state.chunks[k].collision is None
                &&& o.state.chunks[k].id == rem[k].id
                &&& o.state.chunks[k].created_seq == rem[k].created_seq
                &&& o.actions == seq![
                    IndexAction::DeletePoint { point: p },
                    IndexAction::CreatePoint { point: fresh_point, chunk: rem[k].id },
                ]
            }
            &&& !has_dup_in(rem, p) ==> {
                &&& o.state.chunks == rem
                &&& !o.state.owns_point(p)
                &&& !has_dup_in(o.state.chunks, p)
                &&& o.actions == seq![IndexAction::DeletePoint { point: p }]
            }
            &&& o.state.wf()
        }),
{
    let i = s.index_of(id);
    assert(0 <= i < s.chunks.len() && s.chunks[i].id == id);
    let p = s.chunk_of(id).vector_point_id->0;
    let rem = s.chunks.remove(i);
    let o = spec_delete_chunk(s, id, fresh_point);
    if has_dup_in(rem, p) {
        let k = latest_dup_in(rem, p);
        assert(is_latest_dup_in(rem, p, k)) by {
            let w = choose|w: int| is_latest_dup_in(rem, p, w);
            assert(exists|w: int| is_latest_dup_in(rem, p, w)) by {
                lemma_remove_base(s, i);
                lemma_latest_dup_exists(rem, p);
            }
        }
        lemma_promote_wf(s, o.state, i, fresh_point, k);
    } else {
        lemma_remove_wf(s, o.state, i);
        assert forall|m: int| 0 <= m < rem.len() implies rem[m].vector_point_id != Some(p) by {
            let m2 = if m < i {
                m
            } else {
                m + 1
            };
            assert(rem[m] == s.chunks[m2]);
            if rem[m].vector_point_id == Some(p) {
                assert(s.chunks[m2].vector_point_id == s.chunks[i].vector_point_id);
                assert(false);
            }
        }
        if o.state.owns_point(p) {
            let m = choose|m: int|
                0 <= m < o.state.chunks.len() && o.state.chunks[m].vector_point_id == Some(p);
            assert(false);
        }
    }
}

/// Among the duplicates of a point within the first `n` rows, one has
/// maximal creation order: induction on the prefix length.
proof fn lemma_latest_dup_prefix(chunks: Seq<ChunkView>, p: PointId, n: int)
    requires
        0 < n <= chunks.len(),
        exists|j: int| 0 <= j < n && chunks[j].collision == Some(p),
    ensures
        exists|k: int|
            {
                &&& 0 <= k < n && chunks[k].collision == Some(p)
                &&& forall|m: int|
                    0 <= m < n && chunks[m].collision == Some(p) ==> chunks[m].created_seq
                        <= chunks[k].created_seq
            },
    decreases n,
{
    if exists|j: int| 0 <= j < n - 1 && chunks[j].collision == Some(p) {
        lemma_latest_dup_prefix(chunks, p, n - 1);
        let k = choose|k: int|
            {
                &&& 0 <= k < n - 1 && chunks[k].collision == Some(p)
                &&& forall|m: int|
                    0 <= m < n - 1 && chunks[m].collision == Some(p) ==> chunks[m].created_seq
                        <= chunks[k].created_seq
            };
        if chunks[n - 1].collision == Some(p) && chunks[n - 1].created_seq > chunks[k].created_seq {
            let w = n - 1;
            assert(0 <= w < n && chunks[w].collision == Some(p) && forall|m: int|
                0 <= m < n && chunks[m].collision == Some(p) ==> chunks[m].created_seq <= chunks[
                w].created_seq);
        } else {
            assert(0 <= k < n && chunks[k].collision == Some(p) && forall|m: int|
                0 <= m < n && chunks[m].collision == Some(p) ==> chunks[m].created_seq <= chunks[
                k].created_seq);
        }
    } else {
        let j = choose|j: int| 0 <= j < n && chunks[j].collision == Some(p);
        assert(j == n - 1);
        assert(0 <= j < n && chunks[j].collision == Some(p) && forall|m: int|
            0 <= m < n && chunks[m].collision == Some(p) ==> chunks[m].created_seq <= chunks[
            j].created_seq);
    }
}

/// Among the duplicates of a point, one was created last.
proof fn lemma_latest_dup_exists(chunks: Seq<ChunkView>, p: PointId)
    requires
        has_dup_in(chunks, p),
    ensures
        exists|k: int| is_latest_dup_in(chunks, p, k),
{
    lemma_latest_dup_prefix(chunks, p, chunks.len() as int);
    let k = choose|k: int|
        {
            &&& 0 <= k < chunks.len() && chunks[k].collision == Some(p)
            &&& forall|m: int|
                0 <= m < chunks.len() && chunks[m].collision == Some(p) ==> chunks[m].created_seq
                    <= chunks[k].created_seq
        };
    assert(is_latest_dup_in(chunks, p, k));
}

/// Law: updating a duplicate chunk touches no vector point — a duplicate
/// has no independent point to update — while its metadata row does take
/// the new content; updating a root owes exactly one re-embedding write
/// for its own point.
pub proof fn lemma_update_duplicate_leaves_index_alone(
    s: DatasetView,
    req: crate::model::UpdateView,
    content: Seq<char>,
    ts: Option<i64>,
    user: UserId,
)
    requires
        s.wf(),
        s.has_chunk(req.chunk_uuid),
        s.chunk_of(req.chunk_uuid).author_id == user,
        norm_tracking(req.tracking_id) matches Some(t) ==> !(exists|j: int|
            0 <= j < s.chunks.len() && j != s.index_of(req.chunk_uuid)
                && s.chunks[j].tracking_id == Some(t)),
    ensures
        ({
            let o = spec_update_chunk(s, req, content, ts, user);
            let i = s.index_of(req.chunk_uuid);
            &&& o.result == Ok::<(), Fault>(())
            &&& o.state.chunks[i].content == content
            &&& o.state.chunks[i].id == req.chunk_uuid
            &&& o.state.chunks[i].vector_point_id == s.chunks[i].vector_point_id
            &&& s.chunks[i].vector_point_id is None ==> o.actions == Seq::<IndexAction>::empty()
            &&& s.chunks[i].vector_point_id matches Some(p) ==> o.actions == seq![
                IndexAction::UpdatePointEmbedding { point: p, chunk: req.chunk_uuid },
            ]
        }),
{
    let i = s.index_of(req.chunk_uuid);
    assert(0 <= i < s.chunks.len() && s.chunks[i].id == req.chunk_uuid);
}

} // verus!
