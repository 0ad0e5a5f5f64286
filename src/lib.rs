use vstd::prelude::*;

pub mod buffer_utils;
pub mod error;
pub mod raster;
pub mod scanline;
pub mod was;
pub mod wdf;

use crate::buffer_utils::read_bytes;
use crate::error::DecodeError;
use crate::was::{get_images, was_result_matches, was_spec, WasInfo};
use crate::wdf::{archive_spec, decode, lookup, FileInfo};

verus! {

/// The payload bytes of entry `key` of the archive `d`, or why there are none.
pub open spec fn entry_payload(d: Seq<u8>, key: u32) -> Result<Seq<u8>, DecodeError> {
    match archive_spec(d) {
        Err(e) => Err(e),
        Ok(m) => if !m.contains_key(key) {
            Err(DecodeError::NotFound)
        } else {
            let f = m[key];
            if f.offset + f.size > d.len() {
                Err(DecodeError::UnexpectedEof)
            } else {
                Ok(d.subrange(f.offset as int, f.offset + f.size))
            }
        },
    }
}

/// Finds entry `was_key` in the archive `archive` and decodes its payload as a sprite.
pub fn load_was(archive: &[u8], was_key: &u32) -> (r: Result<WasInfo, DecodeError>)
    ensures
        match r {
            Ok((h, fs, imgs)) => entry_payload(archive@, *was_key) matches Ok(p)
                && was_result_matches(p, h, fs@, imgs@),
            Err(e) => entry_payload(archive@, *was_key) == Err::<Seq<u8>, DecodeError>(e) || (
            entry_payload(archive@, *was_key) matches Ok(p) && was_spec(p) == Err::<
                (crate::was::ImageHeader, Seq<crate::was::FrameView>, Seq<Seq<u32>>),
                DecodeError,
            >(e)),
        },
{
    let files = decode(archive)?;
    let file: &FileInfo = lookup(&files, *was_key)?;
    let mut pos: usize = file.offset as usize;
    let data = read_bytes(archive, &mut pos, file.size as usize)?;
    get_images(data.as_slice())
}

/// Decoding is a function of the input bytes alone: equal archives decode to
/// equal maps, equal sprite payloads to equal results, and an entry of equal
/// archives to equal payloads.
pub proof fn lemma_decode_is_pure(a: Seq<u8>, b: Seq<u8>, key: u32)
    requires
        a == b,
    ensures
        archive_spec(a) == archive_spec(b),
        was_spec(a) == was_spec(b),
        entry_payload(a, key) == entry_payload(b, key),
{
}

} // verus!
