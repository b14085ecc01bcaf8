use vstd::prelude::*;

use crate::chunk::Chunk;
use crate::chunk::ChunkError;

verus! {

/// The total number of data bytes held by a run of chunks.
pub open spec fn sum_len(s: Seq<Chunk>) -> int
    decreases s.len(),
{
    if s.len() == 0 {
        0
    } else {
        s[0].data@.len() + sum_len(s.drop_first())
    }
}

/// A sum clipped to what a `usize` counter can show.
pub open spec fn clip_usize(n: int) -> int {
    if n > usize::MAX {
        usize::MAX as int
    } else {
        n
    }
}

pub proof fn lemma_sum_len_push(s: Seq<Chunk>, c: Chunk)
    ensures
        sum_len(s.push(c)) == sum_len(s) + c.data@.len(),
    decreases s.len(),
{
    if s.len() == 0 {
        assert(s.push(c)[0] == c);
        assert(s.push(c).drop_first() =~= Seq::<Chunk>::empty());
        assert(sum_len(s.push(c)) == c.data@.len() + sum_len(Seq::<Chunk>::empty()));
        assert(sum_len(Seq::<Chunk>::empty()) == 0);
    } else {
        assert(s.push(c)[0] == s[0]);
        assert(s.push(c).drop_first() =~= s.drop_first().push(c));
        lemma_sum_len_push(s.drop_first(), c);
        assert(sum_len(s.push(c)) == s[0].data@.len() + sum_len(s.drop_first().push(c)));
        assert(sum_len(s) == s[0].data@.len() + sum_len(s.drop_first()));
    }
}

/// The shared store that workers feed: every chunk captured so far, the set of
/// captured ids, the append-only error log, and a running byte counter.
pub struct Aggregator {
    pub chunks: Vec<Chunk>,
    pub processed: Vec<usize>,
    pub errors: Vec<ChunkError>,
    pub total_bytes: usize,
}

impl Aggregator {
    /// `id` is a member of the processed set.
    pub open spec fn is_processed_id(self, id: int) -> bool {
        exists|k: int| 0 <= k < self.processed@.len() && self.processed@[k] == id
    }

    /// The processed set as a set of ids.
    pub open spec fn processed_ids(self) -> Set<int> {
        Set::new(|id: int| self.is_processed_id(id))
    }

    /// Well-formedness: the processed set holds each id once, the captured
    /// chunks carry pairwise distinct ids, an id is processed exactly when a
    /// chunk was captured for it, and the byte counter shows the captured
    /// total (clipped at the counter's width).
    pub open spec fn wf(self) -> bool {
        &&& forall|k1: int, k2: int|
            0 <= k1 < k2 < self.processed@.len() ==> self.processed@[k1] != self.processed@[k2]
        &&& forall|k1: int, k2: int|
            0 <= k1 < k2 < self.chunks@.len() ==> self.chunks@[k1].id != self.chunks@[k2].id
        &&& forall|k: int|
            0 <= k < self.chunks@.len() ==> self.is_processed_id(#[trigger] self.chunks@[k].id as int)

        &&& forall|k: int|
            0 <= k < self.processed@.len() ==> exists|j: int|
                0 <= j < self.chunks@.len() && self.chunks@[j].id == #[trigger] self.processed@[k]
        &&& self.total_bytes == clip_usize(sum_len(self.chunks@))
    }

    /// An empty store.
    pub fn new() -> (r: Aggregator)
        ensures
            r.wf(),
            r.chunks@ == Seq::<Chunk>::empty(),
            r.processed@ == Seq::<usize>::empty(),
            r.errors@ == Seq::<ChunkError>::empty(),
            r.total_bytes == 0,
    {
        Aggregator { chunks: Vec::new(), processed: Vec::new(), errors: Vec::new(), total_bytes: 0 }
    }

    /// Membership test for the processed set: the idempotent-skip check.
    pub fn is_processed(&self, id: usize) -> (r: bool)
        ensures
            r == self.is_processed_id(id as int),
    {
        let mut k: usize = 0;
        while k < self.processed.len()
            invariant
                k <= self.processed@.len(),
                forall|j: int| 0 <= j < k ==> self.processed@[j] != id,
            decreases self.processed@.len() - k,
        {
            if self.processed[k] == id {
                return true;
            }
            k = k + 1;
        }
        false
    }

    /// Record a successful fetch: the chunk is stored, its id joins the
    /// processed set, and the byte counter advances by the chunk's length
    /// (saturating at the counter's width). Nothing else moves.
    pub fn record_chunk(&mut self, chunk: Chunk)
        requires
            old(self).wf(),
            !old(self).is_processed_id(chunk.id as int),
        ensures
            final(self).wf(),
            final(self).chunks@ == old(self).chunks@.push(chunk),
            final(self).processed@ == old(self).processed@.push(chunk.id),
            final(self).errors@ == old(self).errors@,
            final(self).total_bytes == clip_usize(old(self).total_bytes + chunk.data@.len()),
    {
        proof {
            lemma_sum_len_push(self.chunks@, chunk);
        }
        let n = chunk.data.len();
        self.total_bytes = self.total_bytes.saturating_add(n);
        self.processed.push(chunk.id);
        self.chunks.push(chunk);
        proof {
            let s = *self;
            assert forall|k: int| 0 <= k < s.chunks@.len() implies s.is_processed_id(
                #[trigger] s.chunks@[k].id as int,
            ) by {
                if k < s.chunks@.len() - 1 {
                    let prev = *old(self);
                    assert(prev.is_processed_id(prev.chunks@[k].id as int));
                    let w = choose|w: int|
                        0 <= w < prev.processed@.len() && prev.processed@[w] == prev.chunks@[k].id;
                    assert(s.processed@[w] == s.chunks@[k].id);
                } else {
                    assert(s.processed@[s.processed@.len() - 1] == s.chunks@[k].id);
                }
            }
            assert forall|k: int| 0 <= k < s.processed@.len() implies exists|j: int|
                0 <= j < s.chunks@.len() && s.chunks@[j].id == #[trigger] s.processed@[k] by {
                if k < s.processed@.len() - 1 {
                    let prev = *old(self);
                    let j = choose|j: int|
                        0 <= j < prev.chunks@.len() && prev.chunks@[j].id == prev.processed@[k];
                    assert(s.chunks@[j].id == s.processed@[k]);
                } else {
                    assert(s.chunks@[s.chunks@.len() - 1].id == s.processed@[k]);
                }
            }
        }
    }

    /// Append one entry to the error log. Nothing else moves.
    pub fn append_error(&mut self, chunk_id: usize, message: String)
        requires
            old(self).wf(),
        ensures
            final(self).wf(),
            final(self).chunks@ == old(self).chunks@,
            final(self).processed@ == old(self).processed@,
            final(self).errors@ == old(self).errors@.push(
                (ChunkError { chunk_id, message: message }),
            ),
            final(self).total_bytes == old(self).total_bytes,
    {
        self.errors.push(ChunkError { chunk_id, message });
        proof {
            let s = *self;
            let prev = *old(self);
            assert forall|k: int| 0 <= k < s.chunks@.len() implies s.is_processed_id(
                #[trigger] s.chunks@[k].id as int,
            ) by {
                assert(prev.is_processed_id(prev.chunks@[k].id as int));
                let w = choose|w: int|
                    0 <= w < prev.processed@.len() && prev.processed@[w] == prev.chunks@[k].id;
                assert(s.processed@[w] == s.chunks@[k].id);
            }
            assert forall|k: int| 0 <= k < s.processed@.len() implies exists|j: int|
                0 <= j < s.chunks@.len() && s.chunks@[j].id == #[trigger] s.processed@[k] by {
                let j = choose|j: int|
                    0 <= j < prev.chunks@.len() && prev.chunks@[j].id == prev.processed@[k];
                assert(s.chunks@[j].id == s.processed@[k]);
            }
        }
    }
}

} // verus!
