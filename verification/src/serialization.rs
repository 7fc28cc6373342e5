//! What the compact binary forms share: their errors, the limits they are
//! read under, and the reading of fixed-size fields.
use crate::signature::CryptoError;
use crate::varint::VarIntError;
use vstd::prelude::*;

verus! {

/// Why a model could not be read or built.
#[derive(Debug, Clone, Copy, PartialEq, Eq, Structural)]
pub enum ModelsError {
    /// A text does not stand for a hash.
    HashError,
    /// The buffer is too short for a fixed-size field.
    BufferError,
    /// A variable-length integer could not be read.
    VarIntError(VarIntError),
    /// A slot names a thread that does not exist.
    InvalidThreadNumber,
    /// A key or a signature was refused.
    CryptoError(CryptoError),
}

/// The limits under which the compact binary forms are read.
#[derive(Debug, Clone, Copy)]
pub struct SerializationContext {
    pub max_block_size: u32,
    pub max_block_operations: u32,
    /// Number of parents of a block, which is the number of threads.
    pub parent_count: u8,
    pub max_peer_list_length: u32,
    pub max_message_size: u32,
    pub max_bootstrap_blocks: u32,
    pub max_bootstrap_cliques: u32,
    pub max_bootstrap_deps: u32,
    pub max_bootstrap_children: u32,
    pub max_bootstrap_pos_cycles: u32,
    pub max_bootstrap_pos_entries: u32,
    pub max_ask_blocks_per_message: u32,
    pub max_operations_per_message: u32,
    pub max_endorsements_per_message: u32,
    pub max_bootstrap_message_size: u32,
    pub max_block_endorsments: u32,
}

/// The first `N` bytes of `buffer`, as an array, or `BufferError` when it is
/// shorter.
pub fn array_from_slice<const N: usize>(buffer: &[u8]) -> (res: Result<[u8; N], ModelsError>)
    ensures
        match res {
            Ok(a) => buffer@.len() >= N && a@ == buffer@.take(N as int),
            Err(e) => buffer@.len() < N && e == ModelsError::BufferError,
        },
{
    if buffer.len() < N {
        return Err(ModelsError::BufferError);
    }
    let mut out: [u8; N] = [0u8; N];
    let mut i: usize = 0;
    while i < N
        invariant
            i <= N,
            buffer@.len() >= N,
            out@.len() == N,
            forall|j: int| 0 <= j < i ==> out@[j] == buffer@[j],
        decreases N - i,
    {
        out[i] = buffer[i];
        i = i + 1;
    }
    assert(out@ =~= buffer@.take(N as int));
    Ok(out)
}

/// The first byte of `buffer`, or `BufferError` when it is empty.
pub fn u8_from_slice(buffer: &[u8]) -> (res: Result<u8, ModelsError>)
    ensures
        match res {
            Ok(b) => buffer@.len() > 0 && b == buffer@[0],
            Err(e) => buffer@.len() == 0 && e == ModelsError::BufferError,
        },
{
    if buffer.len() == 0 {
        Err(ModelsError::BufferError)
    } else {
        Ok(buffer[0])
    }
}

/// Appends the bytes of `data` to `out`.
pub fn extend_bytes(out: &mut Vec<u8>, data: &[u8])
    ensures
        final(out)@ == old(out)@ + data@,
{
    let ghost start = out@;
    let mut i: usize = 0;
    while i < data.len()
        invariant
            i <= data@.len(),
            out@ == start + data@.take(i as int),
        decreases data@.len() - i,
    {
        out.push(data[i]);
        i = i + 1;
        assert(out@ =~= start + data@.take(i as int));
    }
    assert(data@.take(data@.len() as int) =~= data@);
}

/// The bytes of `buffer` from `start` on.
pub fn tail(buffer: &[u8], start: usize) -> (out: &[u8])
    requires
        start <= buffer@.len(),
    ensures
        out@ == buffer@.skip(start as int),
{
    let out = &buffer[start..buffer.len()];
    assert(out@ =~= buffer@.skip(start as int));
    out
}

} // verus!
