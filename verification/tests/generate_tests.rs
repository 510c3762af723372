use chunk_search::dataset::{CollisionProbe, DatasetState};
use chunk_search::ids::{ChunkId, DatasetId, PointId, UserId};
use chunk_search::model::CreateChunkData;

fn ingest(s: &mut DatasetState, content: &str, chunk: u128, point: u128) {
    let req = CreateChunkData {
        chunk_html: Some(content.to_string()),
        link: None,
        tag_set: Vec::new(),
        metadata: Vec::new(),
        tracking_id: None,
        collection_id: None,
        time_stamp: None,
        weight: None,
    };
    let (_, result) = s.create_chunk(
        &req,
        content.to_string(),
        UserId { value: 7 },
        &CollisionProbe { nearest: None },
        950_000,
        ChunkId { value: chunk },
        PointId { value: point },
        1000,
    );
    assert!(result.is_ok());
}

#[test]
fn context_documents_follow_the_requested_order() {
    let mut s = DatasetState::new(DatasetId { value: 1 });
    ingest(&mut s, "first document", 1, 100);
    ingest(&mut s, "second document", 2, 101);
    let req = chunk_search::generate::GenerateChunksRequest {
        model: None,
        prev_messages: vec!["question".to_string()],
        chunk_ids: vec![ChunkId { value: 2 }, ChunkId { value: 1 }],
    };
    let docs = s.build_rag_context(&req);
    // One document per requested chunk, in the requested order.
    assert_eq!(docs, vec!["second document".to_string(), "first document".to_string()]);
}

#[test]
fn long_contents_are_truncated_to_the_context_word_budget() {
    let mut s = DatasetState::new(DatasetId { value: 1 });
    let long: Vec<String> = (0..300).map(|n| format!("w{}", n)).collect();
    ingest(&mut s, &long.join("  "), 1, 100);
    let req = chunk_search::generate::GenerateChunksRequest {
        model: None,
        prev_messages: vec!["question".to_string()],
        chunk_ids: vec![ChunkId { value: 1 }],
    };
    let docs = s.build_rag_context(&req);
    let words: Vec<&str> = docs[0].split(' ').collect();
    assert_eq!(words.len(), 240);
    assert_eq!(words[0], "w0");
    assert_eq!(words[239], "w239");
}
