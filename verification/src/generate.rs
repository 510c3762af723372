//! Context assembly for generation over chunks: the caller names chunks,
//! and their contents come back in the requested order, each truncated to
//! its first words, ready to be placed into a model's context window. The
//! chat exchange itself is an outside concern; only what enters it is
//! decided here.

use vstd::prelude::*;

use crate::dataset::DatasetState;
use crate::dataset::DatasetView;
use crate::ids::ChunkId;
use crate::text::spec_first_words;

verus! {

/// How many leading words of each chunk enter the context window.
pub const CONTEXT_WORDS: u64 = 240;

/// A request to generate over chunks: the prior messages (the last one is
/// the prompt) and the chunks to inject, in order. A request needs at
/// least one prior message — the prompt the caller's exchange sends after
/// the documents — and every named chunk must exist.
pub struct GenerateChunksRequest {
    /// The model to use; absent means the deployment's default. Consumed
    /// by the caller's provider exchange, not here.
    pub model: Option<String>,
    /// The previous messages; the last is the prompt. Consumed by the
    /// caller's prompt assembly around the context documents.
    pub prev_messages: Vec<String>,
    /// The chunks to retrieve and inject, in this order.
    pub chunk_ids: Vec<ChunkId>,
}

/// The context documents a chunk-id list yields: the content of each
/// requested chunk that exists, in the requested order, truncated to its
/// first words.
pub open spec fn spec_rag_context(s: DatasetView, ids: Seq<ChunkId>) -> Seq<Seq<char>>
    decreases ids.len(),
{
    if ids.len() == 0 {
        Seq::empty()
    } else {
        let rest = spec_rag_context(s, ids.skip(1));
        if s.has_chunk(ids[0]) {
            seq![spec_first_words(s.chunk_of(ids[0]).content, CONTEXT_WORDS as int)] + rest
        } else {
            rest
        }
    }
}

/// When every requested id resolves, the context has one document per id.
proof fn lemma_rag_context_covers(s: DatasetView, ids: Seq<ChunkId>)
    requires
        forall|i: int| 0 <= i < ids.len() ==> s.has_chunk(#[trigger] ids[i]),
    ensures
        spec_rag_context(s, ids).len() == ids.len(),
    decreases ids.len(),
{
    if ids.len() > 0 {
        assert(forall|i: int| 0 <= i < ids.skip(1).len() ==> ids.skip(1)[i] == ids[i + 1]);
        lemma_rag_context_covers(s, ids.skip(1));
    }
}

impl DatasetState {
    /// The context documents for a generation request: exactly
    /// [`spec_rag_context`] over the requested ids, in the requested
    /// order, one document per id. A request without a prior message, or
    /// naming a chunk the dataset does not hold, is left out here: the
    /// caller checks both and refuses such a request.
    pub fn build_rag_context(&self, data: &GenerateChunksRequest) -> (out: Vec<String>)
        requires
            self@.wf(),
            data.prev_messages@.len() >= 1,
            forall|i: int|
                0 <= i < data.chunk_ids@.len() ==> self@.has_chunk(#[trigger] data.chunk_ids@[i]),
        ensures
            out.deep_view() == spec_rag_context(self@, data.chunk_ids@),
            out@.len() == data.chunk_ids@.len(),
    {
        proof {
            lemma_rag_context_covers(self@, data.chunk_ids@);
        }
        let chunk_ids = &data.chunk_ids;
        let mut out: Vec<String> = Vec::new();
        let mut i: usize = 0;
        proof {
            assert(chunk_ids@.skip(0) =~= chunk_ids@);
            assert(out.deep_view() =~= Seq::<Seq<char>>::empty());
        }
        while i < chunk_ids.len()
            invariant
                0 <= i <= chunk_ids@.len(),
                self@.wf(),
                spec_rag_context(self@, chunk_ids@) =~= out.deep_view() + spec_rag_context(
                    self@,
                    chunk_ids@.skip(i as int),
                ),
            decreases chunk_ids@.len() - i,
        {
            let ghost pre = chunk_ids@.skip(i as int);
            assert(pre[0] == chunk_ids@[i as int]);
            let id = chunk_ids[i];
            let ghost old_out = out.deep_view();
            match self.position_by_id(id) {
                Some(ix) => {
                    proof {
                        self.lemma_index_of(ix as int);
                    }
                    let doc = crate::text::first_words(
                        self.chunks[ix].content.as_str(),
                        CONTEXT_WORDS as usize,
                    );
                    out.push(doc);
                    proof {
                        let ghost d = spec_first_words(
                            self@.chunk_of(id).content,
                            CONTEXT_WORDS as int,
                        );
                        assert(out.deep_view() =~= old_out + seq![d]);
                        assert((old_out + seq![d]) + spec_rag_context(self@, pre.skip(1))
                            =~= old_out + (seq![d] + spec_rag_context(self@, pre.skip(1))));
                    }
                },
                None => {},
            }
            i = i + 1;
            proof {
                assert(pre.skip(1) =~= chunk_ids@.skip(i as int));
            }
        }
        proof {
            assert(chunk_ids@.skip(i as int) =~= Seq::<ChunkId>::empty());
            assert(out.deep_view() + Seq::<Seq<char>>::empty() =~= out.deep_view());
        }
        out
    }
}

} // verus!
