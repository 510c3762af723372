//! The data model: chunks, their request types, and spec-level views.
//!
//! A chunk is the atomic unit of searchable content. Weights and similarity
//! scores are fixed-point integers (see [`crate::scores`]); timestamps are
//! seconds since the Unix epoch.

use vstd::prelude::*;

use crate::ids::{ChunkId, CollectionId, DatasetId, PointId, UserId};

verus! {

/// The neutral ranking weight, in thousandths.
pub const NEUTRAL_WEIGHT: u32 = 1000;

/// One metadata attribute of a chunk: a key and a scalar value. Metadata is
/// filterable by substring match only, with no index support (a linear scan).
#[derive(Clone, Debug)]
pub struct MetadataEntry {
    pub key: String,
    pub value: String,
}

/// Spec-level view of a [`MetadataEntry`].
#[verifier::ext_equal]
pub struct EntryView {
    pub key: Seq<char>,
    pub value: Seq<char>,
}

impl View for MetadataEntry {
    type V = EntryView;

    open spec fn view(&self) -> EntryView {
        EntryView { key: self.key@, value: self.value@ }
    }
}

/// The view of an optional string.
pub open spec fn opt_str_view(o: Option<String>) -> Option<Seq<char>> {
    match o {
        Some(s) => Some(s@),
        None => None,
    }
}

/// The view of an optional string list.
pub open spec fn opt_strs_view(o: Option<Vec<String>>) -> Option<Seq<Seq<char>>> {
    match o {
        Some(v) => Some(v.deep_view()),
        None => None,
    }
}

/// The views of a metadata list.
pub open spec fn entries_view(v: Seq<MetadataEntry>) -> Seq<EntryView> {
    v.map_values(|e: MetadataEntry| e@)
}

/// A chunk record, as the metadata store keeps it.
#[derive(Debug)]
pub struct ChunkMetadata {
    /// Unique, generated identity.
    pub id: ChunkId,
    /// The author of the chunk.
    pub author_id: UserId,
    /// Plain content derived from the markup; what embedding and lexical
    /// search work on.
    pub content: String,
    /// The markup as submitted.
    pub chunk_html: Option<String>,
    /// An opaque, filterable link.
    pub link: Option<String>,
    /// Ordered, individually filterable tags, with index support.
    pub tag_set: Vec<String>,
    /// Filterable attributes without index support.
    pub metadata: Vec<MetadataEntry>,
    /// Caller-supplied alternate key, unique within the dataset when present.
    pub tracking_id: Option<String>,
    /// Seconds since the Unix epoch; used for recency bias and range filters.
    pub time_stamp: Option<i64>,
    /// The owning partition.
    pub dataset_id: DatasetId,
    /// Ranking bias in thousandths; 1000 is neutral.
    pub weight: u32,
    /// The vector point this chunk owns, when it is the root of its group; a
    /// duplicate owns none.
    pub vector_point_id: Option<PointId>,
    /// For a duplicate: the root's vector point it was merged into.
    pub collision: Option<PointId>,
    /// Creation order within the dataset; later chunks have larger values.
    pub created_seq: u64,
}

/// Spec-level view of a [`ChunkMetadata`].
#[verifier::ext_equal]
pub struct ChunkView {
    pub id: ChunkId,
    pub author_id: UserId,
    pub content: Seq<char>,
    pub chunk_html: Option<Seq<char>>,
    pub link: Option<Seq<char>>,
    pub tag_set: Seq<Seq<char>>,
    pub metadata: Seq<EntryView>,
    pub tracking_id: Option<Seq<char>>,
    pub time_stamp: Option<i64>,
    pub dataset_id: DatasetId,
    pub weight: u32,
    pub vector_point_id: Option<PointId>,
    pub collision: Option<PointId>,
    pub created_seq: u64,
}

impl View for ChunkMetadata {
    type V = ChunkView;

    open spec fn view(&self) -> ChunkView {
        ChunkView {
            id: self.id,
            author_id: self.author_id,
            content: self.content@,
            chunk_html: opt_str_view(self.chunk_html),
            link: opt_str_view(self.link),
            tag_set: self.tag_set.deep_view(),
            metadata: entries_view(self.metadata@),
            tracking_id: opt_str_view(self.tracking_id),
            time_stamp: self.time_stamp,
            dataset_id: self.dataset_id,
            weight: self.weight,
            vector_point_id: self.vector_point_id,
            collision: self.collision,
            created_seq: self.created_seq,
        }
    }
}

impl ChunkView {
    /// A chunk is a root when it owns a vector point, a duplicate when it
    /// references another root's point; never both, never neither.
    pub open spec fn linkage_ok(self) -> bool {
        self.vector_point_id is Some <==> self.collision is None
    }

}

/// Clones an optional string, preserving the view.
pub fn clone_opt_string(o: &Option<String>) -> (r: Option<String>)
    ensures
        opt_str_view(r) == opt_str_view(*o),
{
    match o {
        Some(s) => Some(s.clone()),
        None => None,
    }
}

/// Clones a tag list, preserving the view.
pub fn clone_tags(v: &Vec<String>) -> (r: Vec<String>)
    ensures
        r.deep_view() == v.deep_view(),
{
    let mut r: Vec<String> = Vec::new();
    let mut i: usize = 0;
    while i < v.len()
        invariant
            0 <= i <= v@.len(),
            r.deep_view() =~= v.deep_view().take(i as int),
        decreases v@.len() - i,
    {
        let ghost prev = r.deep_view();
        let s = v[i].clone();
        proof {
            assert(s@ == v@[i as int]@);
            assert(v.deep_view()[i as int] == v@[i as int]@);
        }
        r.push(s);
        proof {
            assert(r.deep_view() =~= prev.push(v.deep_view()[i as int]));
        }
        i = i + 1;
        assert(r.deep_view() =~= v.deep_view().take(i as int));
    }
    assert(v.deep_view().take(i as int) =~= v.deep_view());
    r
}

/// Clones an optional string list, preserving the view.
pub fn clone_opt_strings(o: &Option<Vec<String>>) -> (r: Option<Vec<String>>)
    ensures
        opt_strs_view(r) == opt_strs_view(*o),
{
    match o {
        Some(v) => Some(clone_tags(v)),
        None => None,
    }
}

/// Clones a metadata list, preserving the view.
pub fn clone_entries(v: &Vec<MetadataEntry>) -> (r: Vec<MetadataEntry>)
    ensures
        entries_view(r@) == entries_view(v@),
{
    let mut r: Vec<MetadataEntry> = Vec::new();
    let mut i: usize = 0;
    while i < v.len()
        invariant
            0 <= i <= v@.len(),
            entries_view(r@) =~= entries_view(v@).take(i as int),
        decreases v@.len() - i,
    {
        let ghost prev = entries_view(r@);
        let e = MetadataEntry { key: v[i].key.clone(), value: v[i].value.clone() };
        proof {
            assert(e@ == v@[i as int]@);
            assert(entries_view(v@)[i as int] == v@[i as int]@);
        }
        r.push(e);
        proof {
            assert(entries_view(r@) =~= prev.push(v@[i as int]@));
        }
        i = i + 1;
        assert(entries_view(r@) =~= entries_view(v@).take(i as int));
    }
    assert(entries_view(v@).take(i as int) =~= entries_view(v@));
    r
}

impl Clone for ChunkMetadata {
    /// A clone carries the same view.
    fn clone(&self) -> (r: Self)
        ensures
            r@ == self@,
    {
        ChunkMetadata {
            id: self.id,
            author_id: self.author_id,
            content: self.content.clone(),
            chunk_html: clone_opt_string(&self.chunk_html),
            link: clone_opt_string(&self.link),
            tag_set: clone_tags(&self.tag_set),
            metadata: clone_entries(&self.metadata),
            tracking_id: clone_opt_string(&self.tracking_id),
            time_stamp: self.time_stamp,
            dataset_id: self.dataset_id,
            weight: self.weight,
            vector_point_id: self.vector_point_id,
            collision: self.collision,
            created_seq: self.created_seq,
        }
    }
}

/// Payload of a request to create a chunk.
pub struct CreateChunkData {
    /// Markup content of the chunk, as submitted.
    pub chunk_html: Option<String>,
    /// Link to the source of the chunk; any string, filterable.
    pub link: Option<String>,
    /// Tags to file the chunk under, each independently filterable.
    pub tag_set: Vec<String>,
    /// Arbitrary filterable attributes.
    pub metadata: Vec<MetadataEntry>,
    /// Caller-supplied alternate key; an empty string counts as absent.
    pub tracking_id: Option<String>,
    /// A collection to place the chunk into on creation.
    pub collection_id: Option<CollectionId>,
    /// A datetime string, parsed on ingest; malformed input is rejected
    /// before any index work.
    pub time_stamp: Option<String>,
    /// Ranking bias in thousandths; absent means neutral.
    pub weight: Option<u32>,
}

/// Spec-level view of a [`CreateChunkData`].
#[verifier::ext_equal]
pub struct CreateView {
    pub chunk_html: Option<Seq<char>>,
    pub link: Option<Seq<char>>,
    pub tag_set: Seq<Seq<char>>,
    pub metadata: Seq<EntryView>,
    pub tracking_id: Option<Seq<char>>,
    pub collection_id: Option<CollectionId>,
    pub time_stamp: Option<Seq<char>>,
    pub weight: Option<u32>,
}

impl View for CreateChunkData {
    type V = CreateView;

    open spec fn view(&self) -> CreateView {
        CreateView {
            chunk_html: opt_str_view(self.chunk_html),
            link: opt_str_view(self.link),
            tag_set: self.tag_set.deep_view(),
            metadata: entries_view(self.metadata@),
            tracking_id: opt_str_view(self.tracking_id),
            collection_id: self.collection_id,
            time_stamp: opt_str_view(self.time_stamp),
            weight: self.weight,
        }
    }
}

/// Payload of a request to update a chunk by id. Absent fields keep the
/// chunk's existing values.
pub struct UpdateChunkData {
    /// Which chunk to update.
    pub chunk_uuid: ChunkId,
    pub link: Option<String>,
    pub chunk_html: Option<String>,
    pub metadata: Option<Vec<MetadataEntry>>,
    pub tracking_id: Option<String>,
    pub time_stamp: Option<String>,
    pub weight: Option<u32>,
}

/// Payload of a request to update a chunk by tracking id. Absent fields keep
/// the chunk's existing values.
pub struct UpdateChunkByTrackingIdData {
    /// Which chunk to update; must be non-empty.
    pub tracking_id: String,
    pub link: Option<String>,
    pub chunk_html: Option<String>,
    pub metadata: Option<Vec<MetadataEntry>>,
    pub time_stamp: Option<String>,
    pub weight: Option<u32>,
}

/// The view of an optional metadata list.
pub open spec fn opt_entries_view(o: Option<Vec<MetadataEntry>>) -> Option<Seq<EntryView>> {
    match o {
        Some(v) => Some(entries_view(v@)),
        None => None,
    }
}

/// Spec-level view of an [`UpdateChunkData`].
#[verifier::ext_equal]
pub struct UpdateView {
    pub chunk_uuid: ChunkId,
    pub link: Option<Seq<char>>,
    pub chunk_html: Option<Seq<char>>,
    pub metadata: Option<Seq<EntryView>>,
    pub tracking_id: Option<Seq<char>>,
    pub time_stamp: Option<Seq<char>>,
    pub weight: Option<u32>,
}

impl View for UpdateChunkData {
    type V = UpdateView;

    open spec fn view(&self) -> UpdateView {
        UpdateView {
            chunk_uuid: self.chunk_uuid,
            link: opt_str_view(self.link),
            chunk_html: opt_str_view(self.chunk_html),
            metadata: opt_entries_view(self.metadata),
            tracking_id: opt_str_view(self.tracking_id),
            time_stamp: opt_str_view(self.time_stamp),
            weight: self.weight,
        }
    }
}

/// Spec-level view of an [`UpdateChunkByTrackingIdData`].
#[verifier::ext_equal]
pub struct UpdateTrackingView {
    pub tracking_id: Seq<char>,
    pub link: Option<Seq<char>>,
    pub chunk_html: Option<Seq<char>>,
    pub metadata: Option<Seq<EntryView>>,
    pub time_stamp: Option<Seq<char>>,
    pub weight: Option<u32>,
}

impl View for UpdateChunkByTrackingIdData {
    type V = UpdateTrackingView;

    open spec fn view(&self) -> UpdateTrackingView {
        UpdateTrackingView {
            tracking_id: self.tracking_id@,
            link: opt_str_view(self.link),
            chunk_html: opt_str_view(self.chunk_html),
            metadata: opt_entries_view(self.metadata),
            time_stamp: opt_str_view(self.time_stamp),
            weight: self.weight,
        }
    }
}

/// What a successful create returns: the stored chunk and whether it was
/// routed into an existing duplicate group.
#[derive(Debug)]
pub struct ReturnCreatedChunk {
    pub chunk_metadata: ChunkMetadata,
    pub duplicate: bool,
}

/// Error body for an update whose markup could not be converted; carries the
/// content the caller submitted.
pub struct ChunkHtmlUpdateError {
    pub message: String,
    pub changed_content: String,
}

/// A named collection of chunks within a dataset.
#[derive(Debug)]
pub struct ChunkCollection {
    pub id: CollectionId,
    pub dataset_id: DatasetId,
    pub name: String,
    pub description: String,
}

/// Spec-level view of a [`ChunkCollection`].
#[verifier::ext_equal]
pub struct CollectionView {
    pub id: CollectionId,
    pub dataset_id: DatasetId,
    pub name: Seq<char>,
    pub description: Seq<char>,
}

impl View for ChunkCollection {
    type V = CollectionView;

    open spec fn view(&self) -> CollectionView {
        CollectionView {
            id: self.id,
            dataset_id: self.dataset_id,
            name: self.name@,
            description: self.description@,
        }
    }
}

impl Clone for ChunkCollection {
    /// A clone carries the same view.
    fn clone(&self) -> (r: Self)
        ensures
            r@ == self@,
    {
        ChunkCollection {
            id: self.id,
            dataset_id: self.dataset_id,
            name: self.name.clone(),
            description: self.description.clone(),
        }
    }
}

} // verus!
