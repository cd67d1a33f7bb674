//! Frozen buffers: a frame's bytes copied into a private, anonymous memory
//! map that is then made read-only, and read back from it.
//!
//! Maps over files are not made here: to make one is to promise that nobody
//! else writes the file, which only the caller can do.

use vstd::prelude::*;
use vstd::slice::slice_to_vec;
use crate::ingest::FrameError;

verus! {

/// A read-only memory map of the `memmap2` crate.
#[verifier::external_type_specification]
#[verifier::external_body]
pub struct ExMmap(memmap2::Mmap);

/// A writable memory map of the `memmap2` crate.
#[verifier::external_type_specification]
#[verifier::external_body]
pub struct ExMmapMut(memmap2::MmapMut);

/// The error type of std's input and output, carried through and never
/// looked into.
#[verifier::external_type_specification]
#[verifier::external_body]
pub struct ExIoError(std::io::Error);

/// The bytes that a read-only map holds.
pub uninterp spec fn map_bytes(map: memmap2::Mmap) -> Seq<u8>;

/// The bytes that a writable map holds.
pub uninterp spec fn scratch_bytes(map: memmap2::MmapMut) -> Seq<u8>;

/// `memmap2::MmapMut::map_anon`: a new private map that no file backs. Where
/// the call succeeds the map holds as many bytes as were asked for; nothing
/// is claimed of what they are.
#[verifier::external_body]
fn map_anon(len: usize) -> (res: Result<memmap2::MmapMut, std::io::Error>)
    ensures
        res matches Ok(map) ==> scratch_bytes(map).len() == len,
{
    memmap2::MmapMut::map_anon(len)
}

/// `copy_from_slice` of std on the bytes of a writable map, which it hands
/// out as a mutable slice: afterwards the map holds `bytes`. The lengths must
/// agree, or the call would panic.
#[verifier::external_body]
fn map_fill(map: &mut memmap2::MmapMut, bytes: &[u8])
    requires
        scratch_bytes(*old(map)).len() == bytes@.len(),
    ensures
        scratch_bytes(*final(map)) == bytes@,
{
    map.copy_from_slice(bytes)
}

/// `memmap2::MmapMut::make_read_only`: the same memory, no longer writable.
/// Where the call succeeds the read-only map holds what the writable one held.
#[verifier::external_body]
fn make_read_only(map: memmap2::MmapMut) -> (res: Result<memmap2::Mmap, std::io::Error>)
    ensures
        res matches Ok(frozen) ==> map_bytes(frozen) == scratch_bytes(map),
{
    map.make_read_only()
}

/// The bytes of a read-only map as a slice, as `memmap2::Mmap` hands them out
/// through `AsRef`.
#[verifier::external_body]
fn map_slice(map: &memmap2::Mmap) -> (bytes: &[u8])
    ensures
        bytes@ == map_bytes(*map),
{
    map.as_ref()
}

/// Copies `buffer` into a fresh anonymous map and makes the map read-only.
/// Fails with `FrameError::Mapping` where the system refuses the map or the
/// change of protection; a map that is handed back holds exactly `buffer`.
pub fn freeze(buffer: &[u8]) -> (res: Result<memmap2::Mmap, FrameError>)
    ensures
        match res {
            Ok(map) => map_bytes(map) == buffer@,
            Err(e) => e == FrameError::Mapping,
        },
{
    let mut scratch = match map_anon(buffer.len()) {
        Ok(map) => map,
        Err(_) => {
            return Err(FrameError::Mapping);
        },
    };
    map_fill(&mut scratch, buffer);
    match make_read_only(scratch) {
        Ok(map) => Ok(map),
        Err(_) => Err(FrameError::Mapping),
    }
}

/// The bytes of a read-only map, copied out.
pub fn thaw(map: &memmap2::Mmap) -> (buffer: Vec<u8>)
    ensures
        buffer@ == map_bytes(*map),
{
    slice_to_vec(map_slice(map))
}

} // verus!
