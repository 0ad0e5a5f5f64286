use vstd::prelude::*;

use crate::error::DecodeError;

verus! {

/// The little-endian 16-bit value of the two bytes at `i`.
pub open spec fn le16(d: Seq<u8>, i: int) -> int {
    d[i] as int + 256 * d[i + 1] as int
}

/// The little-endian 32-bit value of the four bytes at `i`.
pub open spec fn le32(d: Seq<u8>, i: int) -> int {
    d[i] as int + 256 * d[i + 1] as int + 65536 * d[i + 2] as int + 16777216 * d[i + 3] as int
}

/// Reads one byte at `*pos` and moves the cursor past it.
pub fn read_u8(data: &[u8], pos: &mut usize) -> (r: Result<u8, DecodeError>)
    ensures
        match r {
            Ok(v) => *old(pos) + 1 <= data@.len() && v == data@[*old(pos) as int] && *final(pos)
                == *old(pos) + 1,
            Err(e) => e == DecodeError::UnexpectedEof && *old(pos) + 1 > data@.len() && *final(pos)
                == *old(pos),
        },
{
    if *pos >= data.len() {
        return Err(DecodeError::UnexpectedEof);
    }
    let v = data[*pos];
    *pos = *pos + 1;
    Ok(v)
}

/// Reads a little-endian `u16` at `*pos` and moves the cursor past it.
pub fn read_u16(data: &[u8], pos: &mut usize) -> (r: Result<u16, DecodeError>)
    ensures
        match r {
            Ok(v) => *old(pos) + 2 <= data@.len() && v == le16(data@, *old(pos) as int)
                && *final(pos) == *old(pos) + 2,
            Err(e) => e == DecodeError::UnexpectedEof && *old(pos) + 2 > data@.len() && *final(pos)
                == *old(pos),
        },
{
    if *pos >= data.len() || data.len() - *pos < 2 {
        return Err(DecodeError::UnexpectedEof);
    }
    let p = *pos;
    let v = data[p] as u16 + data[p + 1] as u16 * 256;
    *pos = p + 2;
    Ok(v)
}

/// Reads a little-endian `u32` at `*pos` and moves the cursor past it.
pub fn read_u32(data: &[u8], pos: &mut usize) -> (r: Result<u32, DecodeError>)
    ensures
        match r {
            Ok(v) => *old(pos) + 4 <= data@.len() && v == le32(data@, *old(pos) as int)
                && *final(pos) == *old(pos) + 4,
            Err(e) => e == DecodeError::UnexpectedEof && *old(pos) + 4 > data@.len() && *final(pos)
                == *old(pos),
        },
{
    if *pos >= data.len() || data.len() - *pos < 4 {
        return Err(DecodeError::UnexpectedEof);
    }
    let p = *pos;
    let v = data[p] as u32 + data[p + 1] as u32 * 256 + data[p + 2] as u32 * 65536 + data[p
        + 3] as u32 * 16777216;
    *pos = p + 4;
    Ok(v)
}

/// Reads `size` bytes at `*pos` and moves the cursor past them.
pub fn read_bytes(data: &[u8], pos: &mut usize, size: usize) -> (r: Result<Vec<u8>, DecodeError>)
    ensures
        match r {
            Ok(v) => *old(pos) + size <= data@.len() && v@ == data@.subrange(
                *old(pos) as int,
                *old(pos) + size,
            ) && *final(pos) == *old(pos) + size,
            Err(e) => e == DecodeError::UnexpectedEof && *old(pos) + size > data@.len()
                && *final(pos) == *old(pos),
        },
{
    if *pos > data.len() || data.len() - *pos < size {
        return Err(DecodeError::UnexpectedEof);
    }
    let start = *pos;
    let mut out: Vec<u8> = Vec::with_capacity(size);
    let n: usize = data.len();
    let mut i: usize = 0;
    while i < size
        invariant
            n == data@.len(),
            start + size <= n,
            i <= size,
            out@ == data@.subrange(start as int, start + i),
        decreases size - i,
    {
        out.push(data[start + i]);
        i = i + 1;
        assert(out@ =~= data@.subrange(start as int, start + i));
    }
    *pos = start + size;
    Ok(out)
}

} // verus!
