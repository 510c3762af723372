use chunk_search::dataset::{CollisionProbe, DatasetState, IndexAction, Neighbor};
use chunk_search::faults::Fault;
use chunk_search::ids::{ChunkId, CollectionId, DatasetId, PointId, UserId};
use chunk_search::model::{ChunkCollection, CreateChunkData, UpdateChunkByTrackingIdData, UpdateChunkData};

const THRESHOLD: u32 = 950_000;

fn dataset() -> DatasetState {
    DatasetState::new(DatasetId { value: 1 })
}

fn user() -> UserId {
    UserId { value: 7 }
}

fn request(content: &str) -> CreateChunkData {
    CreateChunkData {
        chunk_html: Some(content.to_string()),
        link: None,
        tag_set: Vec::new(),
        metadata: Vec::new(),
        tracking_id: None,
        collection_id: None,
        time_stamp: None,
        weight: None,
    }
}

fn no_collision() -> CollisionProbe {
    CollisionProbe { nearest: None }
}

fn hit(point: PointId, score: u32) -> CollisionProbe {
    CollisionProbe { nearest: Some(Neighbor { point, score }) }
}

fn ingest_root(s: &mut DatasetState, content: &str, chunk: u128, point: u128) -> PointId {
    let p = PointId { value: point };
    let (actions, result) = s.create_chunk(
        &request(content),
        content.to_string(),
        user(),
        &no_collision(),
        THRESHOLD,
        ChunkId { value: chunk },
        p,
        1000,
    );
    let created = result.expect("ingest should succeed");
    assert!(!created.duplicate);
    assert_eq!(actions.len(), 1);
    p
}

#[test]
fn first_ingest_creates_a_point_reingest_merges() {
    // Ingest, then re-ingest content the index reports as near-identical.
    let mut s = dataset();
    let content = "The quick brown fox";
    let p = ingest_root(&mut s, content, 1, 100);

    let (actions, result) = s.create_chunk(
        &request(content),
        content.to_string(),
        user(),
        &hit(p, 999_000),
        THRESHOLD,
        ChunkId { value: 2 },
        PointId { value: 101 },
        1000,
    );
    let created = result.expect("duplicate ingest should succeed");
    assert!(created.duplicate);
    assert_eq!(created.chunk_metadata.vector_point_id, None);
    assert_eq!(created.chunk_metadata.collision, Some(p));
    // The shared point's embedding is untouched: only an authorship touch.
    assert_eq!(actions, vec![IndexAction::UpdatePointAuthor { point: p }]);
    // The original root still owns the point and answers for it.
    let root = s.get_chunk_by_id(ChunkId { value: 1 }).unwrap();
    assert_eq!(root.vector_point_id, Some(p));
}

#[test]
fn below_threshold_chunks_stay_independent() {
    let mut s = dataset();
    let p1 = ingest_root(&mut s, "first text", 1, 100);
    let (actions, result) = s.create_chunk(
        &request("second text"),
        "second text".to_string(),
        user(),
        &hit(p1, 500_000),
        THRESHOLD,
        ChunkId { value: 2 },
        PointId { value: 101 },
        1000,
    );
    let created = result.expect("independent ingest should succeed");
    assert!(!created.duplicate);
    assert_eq!(created.chunk_metadata.vector_point_id, Some(PointId { value: 101 }));
    assert_eq!(
        actions,
        vec![IndexAction::CreatePoint {
            point: PointId { value: 101 },
            chunk: ChunkId { value: 2 }
        }]
    );
    assert_eq!(s.chunks.len(), 2);
}

#[test]
fn collision_on_unknown_point_heals_and_fails_retryably() {
    let mut s = dataset();
    let orphan = PointId { value: 999 };
    let (actions, result) = s.create_chunk(
        &request("text"),
        "text".to_string(),
        user(),
        &hit(orphan, 990_000),
        THRESHOLD,
        ChunkId { value: 1 },
        PointId { value: 100 },
        1000,
    );
    assert_eq!(result.unwrap_err(), Fault::Consistency);
    assert!(Fault::Consistency.retryable());
    assert_eq!(actions, vec![IndexAction::DeletePoint { point: orphan }]);
    assert_eq!(s.chunks.len(), 0);
}

#[test]
fn quota_rejects_before_anything_changes() {
    let mut s = dataset();
    ingest_root(&mut s, "one", 1, 100);
    let (actions, result) = s.create_chunk(
        &request("two"),
        "two".to_string(),
        user(),
        &no_collision(),
        THRESHOLD,
        ChunkId { value: 2 },
        PointId { value: 101 },
        1,
    );
    assert_eq!(result.unwrap_err(), Fault::Quota);
    assert!(actions.is_empty());
    assert_eq!(s.chunks.len(), 1);
}

#[test]
fn conflicting_tracking_id_is_rejected() {
    let mut s = dataset();
    let mut req = request("one");
    req.tracking_id = Some("track-1".to_string());
    let (_, result) = s.create_chunk(
        &req,
        "one".to_string(),
        user(),
        &no_collision(),
        THRESHOLD,
        ChunkId { value: 1 },
        PointId { value: 100 },
        1000,
    );
    assert!(result.is_ok());

    let mut req2 = request("two");
    req2.tracking_id = Some("track-1".to_string());
    let (_, result2) = s.create_chunk(
        &req2,
        "two".to_string(),
        user(),
        &no_collision(),
        THRESHOLD,
        ChunkId { value: 2 },
        PointId { value: 101 },
        1000,
    );
    assert_eq!(result2.unwrap_err(), Fault::Validation);

    // An empty tracking id counts as absent and conflicts with nothing.
    let mut req3 = request("three");
    req3.tracking_id = Some(String::new());
    let (_, result3) = s.create_chunk(
        &req3,
        "three".to_string(),
        user(),
        &no_collision(),
        THRESHOLD,
        ChunkId { value: 3 },
        PointId { value: 102 },
        1000,
    );
    assert!(result3.is_ok());
    let found = s.get_chunk_by_tracking_id(&"track-1".to_string()).unwrap();
    assert_eq!(found.id, ChunkId { value: 1 });
}

#[test]
fn malformed_timestamp_is_a_validation_fault() {
    let mut s = dataset();
    let mut req = request("dated");
    req.time_stamp = Some("not a timestamp at all!!".to_string());
    let (actions, result) = s.create_chunk(
        &req,
        "dated".to_string(),
        user(),
        &no_collision(),
        THRESHOLD,
        ChunkId { value: 1 },
        PointId { value: 100 },
        1000,
    );
    assert_eq!(result.unwrap_err(), Fault::Validation);
    assert!(actions.is_empty());
    assert_eq!(s.chunks.len(), 0);
}

#[test]
fn wellformed_timestamp_is_stored() {
    let mut s = dataset();
    let mut req = request("dated");
    req.time_stamp = Some("2023-06-15T12:00:00Z".to_string());
    let (_, result) = s.create_chunk(
        &req,
        "dated".to_string(),
        user(),
        &no_collision(),
        THRESHOLD,
        ChunkId { value: 1 },
        PointId { value: 100 },
        1000,
    );
    let created = result.expect("dated ingest should succeed");
    assert_eq!(created.chunk_metadata.time_stamp, Some(1_686_830_400));
}

fn build_group(s: &mut DatasetState) -> PointId {
    // A root and two duplicates merged into its point, created in order.
    let p = ingest_root(s, "root content", 1, 100);
    for n in 2..4u128 {
        let (_, result) = s.create_chunk(
            &request("near duplicate"),
            "near duplicate".to_string(),
            user(),
            &hit(p, 980_000),
            THRESHOLD,
            ChunkId { value: n },
            PointId { value: 100 + n },
            1000,
        );
        assert!(result.unwrap().duplicate);
    }
    p
}

#[test]
fn deleting_the_root_promotes_the_most_recent_duplicate() {
    let mut s = dataset();
    let p = build_group(&mut s);
    let fresh = PointId { value: 500 };
    let (actions, result) = s.delete_chunk(ChunkId { value: 1 }, user(), fresh);
    assert!(result.is_ok());
    assert_eq!(
        actions,
        vec![
            IndexAction::DeletePoint { point: p },
            IndexAction::CreatePoint { point: fresh, chunk: ChunkId { value: 3 } },
        ]
    );
    // The most recently created duplicate is root now, with the fresh point.
    let promoted = s.get_chunk_by_id(ChunkId { value: 3 }).unwrap();
    assert_eq!(promoted.vector_point_id, Some(fresh));
    assert_eq!(promoted.collision, None);
    // The remaining duplicate follows the new root.
    let follower = s.get_chunk_by_id(ChunkId { value: 2 }).unwrap();
    assert_eq!(follower.collision, Some(fresh));
    assert_eq!(follower.vector_point_id, None);
}

#[test]
fn deleting_a_root_without_duplicates_leaves_no_successor() {
    let mut s = dataset();
    let p = ingest_root(&mut s, "alone", 1, 100);
    let (actions, result) = s.delete_chunk(ChunkId { value: 1 }, user(), PointId { value: 500 });
    assert!(result.is_ok());
    assert_eq!(actions, vec![IndexAction::DeletePoint { point: p }]);
    assert_eq!(s.chunks.len(), 0);
}

#[test]
fn deleting_a_duplicate_leaves_the_point_alone() {
    let mut s = dataset();
    build_group(&mut s);
    let (actions, result) = s.delete_chunk(ChunkId { value: 2 }, user(), PointId { value: 500 });
    assert!(result.is_ok());
    assert!(actions.is_empty());
    assert_eq!(s.chunks.len(), 2);
}

#[test]
fn delete_checks_existence_and_ownership() {
    let mut s = dataset();
    ingest_root(&mut s, "owned", 1, 100);
    let (_, missing) = s.delete_chunk(ChunkId { value: 9 }, user(), PointId { value: 500 });
    assert_eq!(missing.unwrap_err(), Fault::NotFound);
    let stranger = UserId { value: 8 };
    let (_, forbidden) = s.delete_chunk(ChunkId { value: 1 }, stranger, PointId { value: 500 });
    assert_eq!(forbidden.unwrap_err(), Fault::Forbidden);
    assert_eq!(s.chunks.len(), 1);
}

#[test]
fn updating_a_duplicate_touches_no_point() {
    let mut s = dataset();
    build_group(&mut s);
    let upd = UpdateChunkData {
        chunk_uuid: ChunkId { value: 2 },
        link: None,
        chunk_html: None,
        metadata: None,
        tracking_id: None,
        time_stamp: None,
        weight: None,
    };
    let (actions, result) = s.update_chunk(&upd, "rewritten content".to_string(), user());
    assert!(result.is_ok());
    // No independent point exists for a duplicate, so no index write.
    assert!(actions.is_empty());
    let row = s.get_chunk_by_id(ChunkId { value: 2 }).unwrap();
    assert_eq!(row.content, "rewritten content");
    assert_eq!(row.vector_point_id, None);
}

#[test]
fn updating_a_root_reembeds_its_point() {
    let mut s = dataset();
    let p = ingest_root(&mut s, "root", 1, 100);
    let upd = UpdateChunkData {
        chunk_uuid: ChunkId { value: 1 },
        link: Some("https://example.test".to_string()),
        chunk_html: None,
        metadata: None,
        tracking_id: None,
        time_stamp: None,
        weight: Some(2000),
    };
    let (actions, result) = s.update_chunk(&upd, "root rewritten".to_string(), user());
    assert!(result.is_ok());
    assert_eq!(
        actions,
        vec![IndexAction::UpdatePointEmbedding { point: p, chunk: ChunkId { value: 1 } }]
    );
    let row = s.get_chunk_by_id(ChunkId { value: 1 }).unwrap();
    assert_eq!(row.link, Some("https://example.test".to_string()));
    assert_eq!(row.weight, 2000);
}

#[test]
fn update_by_tracking_id_requires_a_key() {
    let mut s = dataset();
    let upd = UpdateChunkByTrackingIdData {
        tracking_id: String::new(),
        link: None,
        chunk_html: None,
        metadata: None,
        time_stamp: None,
        weight: None,
    };
    let (_, result) = s.update_chunk_by_tracking_id(&upd, "x".to_string(), user());
    assert_eq!(result.unwrap_err(), Fault::Validation);
}

#[test]
fn update_by_tracking_id_edits_the_keyed_chunk() {
    let mut s = dataset();
    let mut req = request("keyed");
    req.tracking_id = Some("key-9".to_string());
    let (_, result) = s.create_chunk(
        &req,
        "keyed".to_string(),
        user(),
        &no_collision(),
        THRESHOLD,
        ChunkId { value: 1 },
        PointId { value: 100 },
        1000,
    );
    assert!(result.is_ok());
    let upd = UpdateChunkByTrackingIdData {
        tracking_id: "key-9".to_string(),
        link: None,
        chunk_html: None,
        metadata: None,
        time_stamp: None,
        weight: None,
    };
    let (_, result2) = s.update_chunk_by_tracking_id(&upd, "keyed anew".to_string(), user());
    assert!(result2.is_ok());
    let row = s.get_chunk_by_tracking_id(&"key-9".to_string()).unwrap();
    assert_eq!(row.content, "keyed anew");
    assert_eq!(row.tracking_id, Some("key-9".to_string()));
}

#[test]
fn bookmarks_are_recorded_for_existing_collections() {
    let mut s = dataset();
    s.collections.push(ChunkCollection {
        id: CollectionId { value: 42 },
        dataset_id: DatasetId { value: 1 },
        name: "favourites".to_string(),
        description: String::new(),
    });
    let mut req = request("member");
    req.collection_id = Some(CollectionId { value: 42 });
    let (_, result) = s.create_chunk(
        &req,
        "member".to_string(),
        user(),
        &no_collision(),
        THRESHOLD,
        ChunkId { value: 1 },
        PointId { value: 100 },
        1000,
    );
    assert!(result.is_ok());
    assert_eq!(s.bookmarks.len(), 1);
    assert_eq!(s.bookmarks[0].chunk_id, ChunkId { value: 1 });
}

#[test]
fn ownership_helpers_check_author() {
    let mut s = dataset();
    ingest_root(&mut s, "mine", 1, 100);
    assert!(s.user_owns_chunk(user(), ChunkId { value: 1 }).is_ok());
    let stranger = UserId { value: 8 };
    assert_eq!(
        s.user_owns_chunk(stranger, ChunkId { value: 1 }).unwrap_err(),
        Fault::Forbidden
    );
    assert_eq!(
        s.user_owns_chunk(user(), ChunkId { value: 9 }).unwrap_err(),
        Fault::NotFound
    );
}

#[test]
fn update_without_weight_or_tracking_keeps_the_stored_ones() {
    let mut s = dataset();
    let mut req = request("keyed");
    req.tracking_id = Some("keep-me".to_string());
    req.weight = Some(2500);
    let (_, result) = s.create_chunk(
        &req,
        "keyed".to_string(),
        user(),
        &no_collision(),
        THRESHOLD,
        ChunkId { value: 1 },
        PointId { value: 100 },
        1000,
    );
    assert!(result.is_ok());
    let upd = UpdateChunkData {
        chunk_uuid: ChunkId { value: 1 },
        link: None,
        chunk_html: None,
        metadata: None,
        tracking_id: None,
        time_stamp: None,
        weight: None,
    };
    let (_, result2) = s.update_chunk(&upd, "keyed still".to_string(), user());
    assert!(result2.is_ok());
    let row = s.get_chunk_by_id(ChunkId { value: 1 }).unwrap();
    // Absent fields keep the stored values.
    assert_eq!(row.weight, 2500);
    assert_eq!(row.tracking_id, Some("keep-me".to_string()));
    assert_eq!(row.content, "keyed still");
}
