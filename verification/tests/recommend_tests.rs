use chunk_search::dataset::{CollisionProbe, DatasetState};
use chunk_search::faults::Fault;
use chunk_search::ids::{ChunkId, DatasetId, PointId, UserId};
use chunk_search::model::CreateChunkData;
use chunk_search::recommend::RecommendChunksRequest;

fn ingest(s: &mut DatasetState, content: &str, chunk: u128, point: u128) -> PointId {
    let req = CreateChunkData {
        chunk_html: Some(content.to_string()),
        link: None,
        tag_set: Vec::new(),
        metadata: Vec::new(),
        tracking_id: None,
        collection_id: None,
        time_stamp: None,
        weight: None,
    };
    let p = PointId { value: point };
    let (_, result) = s.create_chunk(
        &req,
        content.to_string(),
        UserId { value: 7 },
        &CollisionProbe { nearest: None },
        950_000,
        ChunkId { value: chunk },
        p,
        1000,
    );
    assert!(result.is_ok());
    p
}

#[test]
fn recommendations_exclude_the_positive_examples() {
    let mut s = DatasetState::new(DatasetId { value: 1 });
    let p1 = ingest(&mut s, "one", 1, 100);
    let p2 = ingest(&mut s, "two", 2, 101);
    let p3 = ingest(&mut s, "three", 3, 102);
    let req = RecommendChunksRequest { positive_chunk_ids: vec![ChunkId { value: 1 }] };
    // The index answered with neighbours including a positive example itself.
    let out = s.get_recommended_chunks(&req, &vec![p1, p2, p3]).unwrap();
    let ids: Vec<u128> = out.iter().map(|c| c.id.value).collect();
    assert_eq!(ids, vec![2, 3]);
    assert!(!ids.contains(&1));
}

#[test]
fn unresolvable_neighbours_are_a_consistency_fault() {
    let mut s = DatasetState::new(DatasetId { value: 1 });
    ingest(&mut s, "one", 1, 100);
    let req = RecommendChunksRequest { positive_chunk_ids: vec![ChunkId { value: 1 }] };
    let err = s
        .get_recommended_chunks(&req, &vec![PointId { value: 999 }])
        .unwrap_err();
    assert_eq!(err, Fault::Consistency);
}

#[test]
fn no_neighbours_give_an_empty_result() {
    let mut s = DatasetState::new(DatasetId { value: 1 });
    ingest(&mut s, "one", 1, 100);
    let req = RecommendChunksRequest { positive_chunk_ids: vec![ChunkId { value: 1 }] };
    let out = s.get_recommended_chunks(&req, &Vec::new()).unwrap();
    assert!(out.is_empty());
}
