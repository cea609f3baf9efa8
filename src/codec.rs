use vstd::prelude::*;

verus! {

/// The number of chunks a stored vector is aimed to be split into.
pub const NUM_CHUNKS: u64 = 1000;

/// The smallest chunk length, unless the vector itself is shorter.
pub const MIN_CHUNK_SIZE: u64 = 1000;

/// The level of the lossless compressor applied to every chunk.
pub const COMPRESSION_LEVEL: i32 = 3;

/// The chunk length for an axis of `n` elements: `n / NUM_CHUNKS`, raised to
/// at least `MIN_CHUNK_SIZE`, then lowered to at most `n`.
pub open spec fn chunk_len_spec(n: u64) -> u64 {
    let target = n / NUM_CHUNKS;
    let raised = if target < MIN_CHUNK_SIZE { MIN_CHUNK_SIZE } else { target };
    if raised > n { n } else { raised }
}

/// The chunk length for an axis of `n` elements.
pub fn chunk_len(n: u64) -> (r: u64)
    ensures
        r == chunk_len_spec(n),
        r <= n,
        n >= MIN_CHUNK_SIZE ==> r >= MIN_CHUNK_SIZE,
{
    let target = n / NUM_CHUNKS;
    let raised = if target < MIN_CHUNK_SIZE { MIN_CHUNK_SIZE } else { target };
    if raised > n { n } else { raised }
}

/// The chunk shape of an array of the given shape, each axis chunked by
/// `chunk_len` on its own.
pub fn chunk_shape(shape: &Vec<u64>) -> (r: Vec<u64>)
    ensures
        r@.len() == shape@.len(),
        forall|i: int| 0 <= i < r@.len() ==> #[trigger] r@[i] == chunk_len_spec(shape@[i]),
{
    let mut r: Vec<u64> = Vec::new();
    let mut i: usize = 0;
    while i < shape.len()
        invariant
            i <= shape@.len(),
            r@.len() == i,
            forall|j: int| 0 <= j < i ==> #[trigger] r@[j] == chunk_len_spec(shape@[j]),
        decreases shape@.len() - i,
    {
        r.push(chunk_len(shape[i]));
        i = i + 1;
    }
    r
}

/// The element types that the engine stores.
#[derive(Clone, Copy, Debug, PartialEq, Eq, Structural)]
pub enum ElementKind {
    Float32,
    UInt64,
    Text,
}

/// The value assumed for positions never written.
#[derive(Clone, Copy, Debug, PartialEq, Eq, Structural)]
pub enum FillKind {
    /// Not-a-number, for floating-point arrays.
    NotANumber,
    /// Zero, for unsigned integer arrays.
    Zero,
    /// The empty string, for text arrays.
    EmptyText,
}

/// The fill value of arrays of the given element type.
pub fn fill_for(kind: ElementKind) -> (r: FillKind)
    ensures
        kind == ElementKind::Float32 ==> r == FillKind::NotANumber,
        kind == ElementKind::UInt64 ==> r == FillKind::Zero,
        kind == ElementKind::Text ==> r == FillKind::EmptyText,
{
    match kind {
        ElementKind::Float32 => FillKind::NotANumber,
        ElementKind::UInt64 => FillKind::Zero,
        ElementKind::Text => FillKind::EmptyText,
    }
}

} // verus!
