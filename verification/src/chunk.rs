use vstd::prelude::*;

verus! {

/// One captured segment of the remote resource: a zero-based sequential id
/// together with the bytes fetched for its range.
pub struct Chunk {
    pub id: usize,
    pub data: Vec<u8>,
}

impl Clone for Chunk {
    fn clone(&self) -> (r: Self)
        ensures
            r.id == self.id,
            r.data@ == self.data@,
    {
        Chunk { id: self.id, data: self.data.clone() }
    }
}

/// One entry of the error log: the chunk whose fetch failed and the
/// transport's message for that attempt.
pub struct ChunkError {
    pub chunk_id: usize,
    pub message: String,
}

/// The half-open byte range `[id * chunk_size, id * chunk_size + chunk_size)`
/// addressed by a chunk id.
pub fn chunk_range(id: usize, chunk_size: usize) -> (r: (usize, usize))
    requires
        id * chunk_size + chunk_size <= usize::MAX,
    ensures
        r.0 == id * chunk_size,
        r.1 == id * chunk_size + chunk_size,
{
    let start = id * chunk_size;
    (start, start + chunk_size)
}

} // verus!
