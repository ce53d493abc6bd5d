use vstd::prelude::*;

verus! {

/// Largest block along the one axis of a one-dimensional dataset, where none is given.
pub const MAX_BLOCK_1D: usize = 10000;

/// Largest block along each axis of a multi-dimensional dataset, where none is given.
pub const MAX_BLOCK_ND: usize = 100;

/// Datasets of at most this many elements are stored without compression.
pub const SMALL_DATASET: usize = 100;

/// How a dataset is laid out when written.
#[derive(Clone, Debug, PartialEq, Eq)]
pub struct WriteConfig {
    /// Compression level, if any.
    pub compression: Option<u8>,
    /// Shape of a stored block, if given.
    pub block_size: Option<Vec<usize>>,
}

/// The configuration used where none is given: compression level one, block shape chosen per
/// dataset.
pub open spec fn default_config() -> WriteConfig {
    WriteConfig { compression: Some(1u8), block_size: None }
}

impl Default for WriteConfig {
    fn default() -> (r: Self)
        ensures
            r == default_config(),
    {
        WriteConfig { compression: Some(1), block_size: None }
    }
}

pub open spec fn min(a: usize, b: usize) -> usize {
    if a <= b { a } else { b }
}

/// Block shape used for a dataset of shape `shape` when none is given.
pub open spec fn default_block(shape: Seq<usize>) -> Seq<usize> {
    if shape.len() == 1 {
        seq![min(shape[0], MAX_BLOCK_1D)]
    } else {
        shape.map_values(|d: usize| min(d, MAX_BLOCK_ND))
    }
}

/// Compression used for a dataset of `len` elements written with `asked`.
pub open spec fn effective_compression(asked: Option<u8>, len: nat) -> Option<u8> {
    if len > SMALL_DATASET { asked } else { None }
}

/// The block shape a dataset of shape `shape` is written with.
pub fn block_for(config: &WriteConfig, shape: &Vec<usize>) -> (r: Vec<usize>)
    ensures
        config.block_size matches Some(b) ==> r@ == b@,
        config.block_size is None ==> r@ == default_block(shape@),
{
    match &config.block_size {
        Some(b) => crate::array::duplicate_vec(b),
        None => {
            let mut out: Vec<usize> = Vec::new();
            if shape.len() == 1 {
                out.push(if shape[0] <= MAX_BLOCK_1D { shape[0] } else { MAX_BLOCK_1D });
                assert(out@ =~= default_block(shape@));
                return out;
            }
            let mut i: usize = 0;
            while i < shape.len()
                invariant
                    i <= shape@.len(),
                    shape@.len() != 1,
                    out@ =~= shape@.take(i as int).map_values(|d: usize| min(d, MAX_BLOCK_ND)),
                decreases shape@.len() - i,
            {
                out.push(if shape[i] <= MAX_BLOCK_ND { shape[i] } else { MAX_BLOCK_ND });
                assert(shape@.take(i + 1) =~= shape@.take(i as int).push(shape@[i as int]));
                i = i + 1;
            }
            assert(shape@.take(i as int) =~= shape@);
            out
        },
    }
}

/// The configuration a dataset of shape `shape` with `len` elements is written with: the block
/// shape is always set, and small datasets are not compressed.
pub fn effective_config(config: &WriteConfig, shape: &Vec<usize>, len: usize) -> (r: WriteConfig)
    ensures
        r.compression == effective_compression(config.compression, len as nat),
        r.block_size matches Some(b) && (config.block_size matches Some(c) ==> b@ == c@) && (
        config.block_size is None ==> b@ == default_block(shape@)),
{
    let block = block_for(config, shape);
    let compression = if len > SMALL_DATASET {
        config.compression
    } else {
        None
    };
    WriteConfig { compression, block_size: Some(block) }
}

} // verus!
