use chunk_search::dataset::{CollisionProbe, DatasetState, Neighbor};
use chunk_search::ids::{ChunkId, CollectionId, DatasetId, PointId, UserId};
use chunk_search::model::{ChunkCollection, CreateChunkData, MetadataEntry};
use chunk_search::ranker::{
    ChunkScore, PointScore, SearchCandidates, SearchChunkData, SearchCollectionsData,
};

const THRESHOLD: u32 = 950_000;

fn user() -> UserId {
    UserId { value: 7 }
}

fn ingest(s: &mut DatasetState, content: &str, chunk: u128, point: u128) -> PointId {
    let req = CreateChunkData {
        chunk_html: Some(content.to_string()),
        link: None,
        tag_set: Vec::new(),
        metadata: Vec::new(),
        tracking_id: None,
        collection_id: None,
        time_stamp: None,
        weight: None,
    };
    let p = PointId { value: point };
    let (_, result) = s.create_chunk(
        &req,
        content.to_string(),
        user(),
        &CollisionProbe { nearest: None },
        THRESHOLD,
        ChunkId { value: chunk },
        p,
        10_000,
    );
    assert!(result.unwrap().duplicate == false);
    p
}

fn plain_search(search_type: &str, query: &str) -> SearchChunkData {
    SearchChunkData {
        search_type: search_type.to_string(),
        query: query.to_string(),
        page: None,
        link: None,
        tag_set: None,
        time_range: None,
        filters: Vec::new(),
        date_bias: None,
        cross_encoder: None,
        weights: None,
    }
}

fn no_candidates() -> SearchCandidates {
    SearchCandidates {
        semantic: Vec::new(),
        fulltext: Vec::new(),
        semantic_total: 0,
        fulltext_total: 0,
        rerank: Vec::new(),
    }
}

#[test]
fn semantic_search_orders_by_descending_similarity() {
    let mut s = DatasetState::new(DatasetId { value: 1 });
    let p1 = ingest(&mut s, "first", 1, 100);
    let p2 = ingest(&mut s, "second", 2, 101);
    let p3 = ingest(&mut s, "third", 3, 102);
    let mut cands = no_candidates();
    cands.semantic = vec![
        PointScore { point: p1, score: 400_000 },
        PointScore { point: p2, score: 900_000 },
        PointScore { point: p3, score: 700_000 },
    ];
    cands.semantic_total = 3;
    let resp = s
        .search_chunk(&plain_search("semantic", "query"), &cands, 0)
        .unwrap();
    assert_eq!(resp.total_chunk_pages, 1);
    let ids: Vec<u128> = resp
        .score_chunks
        .iter()
        .map(|d| d.metadata[0].id.value)
        .collect();
    assert_eq!(ids, vec![2, 3, 1]);
    assert_eq!(resp.score_chunks[0].score, 900_000);
}

#[test]
fn unknown_search_type_reads_as_semantic() {
    let mut s = DatasetState::new(DatasetId { value: 1 });
    let p1 = ingest(&mut s, "only", 1, 100);
    let mut cands = no_candidates();
    cands.semantic = vec![PointScore { point: p1, score: 500_000 }];
    cands.semantic_total = 1;
    let resp = s
        .search_chunk(&plain_search("anything-else", "q"), &cands, 0)
        .unwrap();
    assert_eq!(resp.score_chunks.len(), 1);
}

#[test]
fn fulltext_pagination_fills_every_page_but_the_last() {
    let mut s = DatasetState::new(DatasetId { value: 1 });
    let mut cands = no_candidates();
    for n in 1..26u128 {
        ingest(&mut s, "text", n, 100 + n);
        cands.fulltext.push(ChunkScore {
            chunk: ChunkId { value: n },
            score: 1_000_000 - (n as u32) * 1000,
        });
    }
    cands.fulltext_total = 25;

    let mut page2 = plain_search("fulltext", "q");
    page2.page = Some(2);
    let resp = s.search_chunk(&page2, &cands, 0).unwrap();
    assert_eq!(resp.total_chunk_pages, 3);
    // Page 2 of 3 is a full page, never fewer.
    assert_eq!(resp.score_chunks.len(), 10);
    assert_eq!(resp.score_chunks[0].metadata[0].id.value, 11);

    let mut page3 = plain_search("fulltext", "q");
    page3.page = Some(3);
    let last = s.search_chunk(&page3, &cands, 0).unwrap();
    assert_eq!(last.score_chunks.len(), 5);

    let mut page4 = plain_search("fulltext", "q");
    page4.page = Some(4);
    let past = s.search_chunk(&page4, &cands, 0).unwrap();
    assert_eq!(past.score_chunks.len(), 0);
}

#[test]
fn hybrid_with_explicit_weights_is_deterministic_and_exact() {
    let mut s = DatasetState::new(DatasetId { value: 1 });
    let p1 = ingest(&mut s, "alpha", 1, 100);
    let p2 = ingest(&mut s, "beta", 2, 101);
    let mut cands = no_candidates();
    cands.semantic = vec![
        PointScore { point: p1, score: 800_000 },
        PointScore { point: p2, score: 400_000 },
    ];
    cands.fulltext = vec![ChunkScore { chunk: ChunkId { value: 2 }, score: 600_000 }];
    cands.semantic_total = 2;
    cands.fulltext_total = 1;
    let mut data = plain_search("hybrid", "q");
    data.weights = Some((700_000, 300_000));

    let first = s.search_chunk(&data, &cands, 0).unwrap();
    let second = s.search_chunk(&data, &cands, 0).unwrap();
    assert_eq!(first.score_chunks.len(), second.score_chunks.len());
    for (a, b) in first.score_chunks.iter().zip(second.score_chunks.iter()) {
        assert_eq!(a.score, b.score);
        assert_eq!(a.metadata[0].id, b.metadata[0].id);
    }

    // Chunk 1: semantic norm 1.0, fulltext norm 0 -> 0.7.
    // Chunk 2: semantic norm 0.5, fulltext norm 1.0 -> 0.35 + 0.3 = 0.65.
    assert_eq!(first.score_chunks[0].metadata[0].id.value, 1);
    assert_eq!(first.score_chunks[0].score, 700_000);
    assert_eq!(first.score_chunks[1].metadata[0].id.value, 2);
    assert_eq!(first.score_chunks[1].score, 650_000);
}

#[test]
fn hybrid_without_weights_takes_the_rerankers_scores() {
    let mut s = DatasetState::new(DatasetId { value: 1 });
    let p1 = ingest(&mut s, "alpha", 1, 100);
    let p2 = ingest(&mut s, "beta", 2, 101);
    let mut cands = no_candidates();
    cands.semantic = vec![
        PointScore { point: p1, score: 900_000 },
        PointScore { point: p2, score: 850_000 },
    ];
    cands.semantic_total = 2;
    cands.rerank = vec![
        ChunkScore { chunk: ChunkId { value: 1 }, score: 100_000 },
        ChunkScore { chunk: ChunkId { value: 2 }, score: 800_000 },
    ];
    let resp = s.search_chunk(&plain_search("hybrid", "q"), &cands, 0).unwrap();
    assert_eq!(resp.score_chunks[0].metadata[0].id.value, 2);
    assert_eq!(resp.score_chunks[0].score, 800_000);
}

#[test]
fn filters_narrow_the_results() {
    let mut s = DatasetState::new(DatasetId { value: 1 });
    let p1 = ingest(&mut s, "tagged", 1, 100);
    let p2 = ingest(&mut s, "untagged", 2, 101);
    s.chunks[0].tag_set.push("news".to_string());
    s.chunks[0].metadata.push(MetadataEntry {
        key: "source".to_string(),
        value: "daily herald".to_string(),
    });
    let mut cands = no_candidates();
    cands.semantic = vec![
        PointScore { point: p1, score: 500_000 },
        PointScore { point: p2, score: 600_000 },
    ];
    cands.semantic_total = 2;

    let mut by_tag = plain_search("semantic", "q");
    by_tag.tag_set = Some(vec!["news".to_string()]);
    let resp = s.search_chunk(&by_tag, &cands, 0).unwrap();
    assert_eq!(resp.score_chunks.len(), 1);
    assert_eq!(resp.score_chunks[0].metadata[0].id.value, 1);

    let mut by_meta = plain_search("semantic", "q");
    by_meta.filters = vec![MetadataEntry {
        key: "source".to_string(),
        value: "herald".to_string(),
    }];
    let resp2 = s.search_chunk(&by_meta, &cands, 0).unwrap();
    assert_eq!(resp2.score_chunks.len(), 1);
    assert_eq!(resp2.score_chunks[0].metadata[0].id.value, 1);

    let mut by_missing_meta = plain_search("semantic", "q");
    by_missing_meta.filters = vec![MetadataEntry {
        key: "source".to_string(),
        value: "gazette".to_string(),
    }];
    let resp3 = s.search_chunk(&by_missing_meta, &cands, 0).unwrap();
    assert_eq!(resp3.score_chunks.len(), 0);
}

#[test]
fn bad_time_range_is_a_validation_fault() {
    let s = DatasetState::new(DatasetId { value: 1 });
    let mut data = plain_search("semantic", "q");
    data.time_range = Some(("garbage!!".to_string(), "2023-01-01T00:00:00Z".to_string()));
    let err = s.search_chunk(&data, &no_candidates(), 0).unwrap_err();
    assert_eq!(err, chunk_search::faults::Fault::Validation);
}

#[test]
fn recency_bias_prefers_newer_chunks_of_equal_score() {
    let mut s = DatasetState::new(DatasetId { value: 1 });
    let p1 = ingest(&mut s, "old", 1, 100);
    let p2 = ingest(&mut s, "new", 2, 101);
    s.chunks[0].time_stamp = Some(0);
    s.chunks[1].time_stamp = Some(9_000_000);
    let mut cands = no_candidates();
    cands.semantic = vec![
        PointScore { point: p1, score: 500_000 },
        PointScore { point: p2, score: 500_000 },
    ];
    cands.semantic_total = 2;
    let mut data = plain_search("semantic", "q");
    data.date_bias = Some(true);
    let resp = s.search_chunk(&data, &cands, 10_000_000).unwrap();
    assert_eq!(resp.score_chunks[0].metadata[0].id.value, 2);
    assert!(resp.score_chunks[0].score > resp.score_chunks[1].score);
}

#[test]
fn highlighting_wraps_the_query_and_leaves_scores_alone() {
    let mut s = DatasetState::new(DatasetId { value: 1 });
    let p1 = ingest(&mut s, "the quick brown fox", 1, 100);
    let mut cands = no_candidates();
    cands.semantic = vec![PointScore { point: p1, score: 500_000 }];
    cands.semantic_total = 1;
    let resp = s.search_chunk(&plain_search("semantic", "quick"), &cands, 0).unwrap();
    assert_eq!(
        resp.score_chunks[0].metadata[0].chunk_html,
        Some("the <b>quick</b> brown fox".to_string())
    );
    assert_eq!(resp.score_chunks[0].metadata[0].content, "the quick brown fox");
    assert_eq!(resp.score_chunks[0].score, 500_000);
}

#[test]
fn collection_search_keeps_only_bookmarked_chunks() {
    let mut s = DatasetState::new(DatasetId { value: 1 });
    s.collections.push(ChunkCollection {
        id: CollectionId { value: 42 },
        dataset_id: DatasetId { value: 1 },
        name: "favourites".to_string(),
        description: String::new(),
    });
    let p1 = ingest(&mut s, "inside", 1, 100);
    let p2 = ingest(&mut s, "outside", 2, 101);
    s.bookmarks.push(chunk_search::dataset::Bookmark {
        collection_id: CollectionId { value: 42 },
        chunk_id: ChunkId { value: 1 },
    });
    let mut cands = no_candidates();
    cands.semantic = vec![
        PointScore { point: p1, score: 500_000 },
        PointScore { point: p2, score: 600_000 },
    ];
    cands.semantic_total = 2;
    let data = SearchCollectionsData {
        query: "q".to_string(),
        page: None,
        link: None,
        tag_set: None,
        filters: Vec::new(),
        collection_id: CollectionId { value: 42 },
        search_type: "semantic".to_string(),
        date_bias: None,
    };
    let res = s.search_collections(&data, &cands, 0).unwrap();
    assert_eq!(res.collection.name, "favourites");
    assert_eq!(res.bookmarks.len(), 1);
    assert_eq!(res.bookmarks[0].metadata[0].id.value, 1);

    let mut absent = data.clone();
    absent.collection_id = CollectionId { value: 9 };
    assert_eq!(
        s.search_collections(&absent, &cands, 0).unwrap_err(),
        chunk_search::faults::Fault::NotFound
    );
}

#[test]
fn collection_requests_convert_to_plain_search_requests() {
    let data = SearchCollectionsData {
        query: "q".to_string(),
        page: Some(3),
        link: None,
        tag_set: None,
        filters: Vec::new(),
        collection_id: CollectionId { value: 42 },
        search_type: "fulltext".to_string(),
        date_bias: Some(true),
    };
    let converted = SearchChunkData::from(data);
    assert_eq!(converted.query, "q");
    assert_eq!(converted.page, Some(3));
    assert_eq!(converted.search_type, "fulltext");
    assert!(converted.time_range.is_none());
    assert!(converted.weights.is_none());
    assert_eq!(converted.date_bias, Some(true));
}
