use vstd::prelude::*;

use crate::error::DecodeError;

verus! {

/// The four row opcodes, selected by the top two bits of a control byte.
#[derive(Debug, Clone, Copy, PartialEq, Eq, Structural)]
pub enum Opcode {
    /// Pixels with an explicit 5-bit alpha, or the end-of-row marker.
    Alpha,
    /// A run of raw palette indices at full alpha.
    Pixels,
    /// One palette index repeated at full alpha.
    Repeat,
    /// Columns left transparent.
    Skip,
}

/// The alpha value given to pixels that carry no alpha of their own.
pub const FULL_ALPHA: u8 = 0x1F;

/// The opcode of a control byte: its top two bits.
pub open spec fn opcode_spec(b: u8) -> Opcode {
    if b < 64 {
        Opcode::Alpha
    } else if b < 128 {
        Opcode::Pixels
    } else if b < 192 {
        Opcode::Repeat
    } else {
        Opcode::Skip
    }
}

/// A packed pixel: the 5-6-5 color in the low 16 bits, the alpha from bit 16 up.
pub open spec fn pack_spec(color: u16, alpha: int) -> u32 {
    (color as int + alpha * 65536) as u32
}

/// A row of `n` transparent black pixels.
pub open spec fn zeros(n: int) -> Seq<u32> {
    Seq::new(n as nat, |j: int| 0u32)
}

/// `row` with the `count` columns from `x` set to `v`.
pub open spec fn fill(row: Seq<u32>, x: int, count: int, v: u32) -> Seq<u32> {
    Seq::new(row.len(), |j: int| if x <= j < x + count { v } else { row[j] })
}

/// `row` with the `count` columns from `x` set, each from its own palette index
/// taken from the bytes of `d` that start at `at`.
pub open spec fn fill_indexed(
    row: Seq<u32>,
    x: int,
    count: int,
    d: Seq<u8>,
    at: int,
    pal: Seq<u16>,
) -> Seq<u32> {
    Seq::new(
        row.len(),
        |j: int|
            if x <= j < x + count {
                pack_spec(pal[d[at + (j - x)] as int], FULL_ALPHA as int)
            } else {
                row[j]
            },
    )
}

/// What decoding a row yields when the opcode stream is read from `pos`, the
/// first `x` columns are done and the row so far is `row`.
pub open spec fn row_spec(
    d: Seq<u8>,
    pos: int,
    pal: Seq<u16>,
    width: int,
    x: int,
    row: Seq<u32>,
) -> Result<Seq<u32>, DecodeError>
    decreases d.len() - pos,
{
    if x >= width {
        Ok(row)
    } else if pos < 0 || pos >= d.len() {
        Err(DecodeError::UnexpectedEof)
    } else {
        let b = d[pos];
        let n = b as int % 64;
        match opcode_spec(b) {
            Opcode::Alpha => {
                if b >= 32 {
                    if pos + 1 >= d.len() {
                        Err(DecodeError::UnexpectedEof)
                    } else {
                        row_spec(
                            d,
                            pos + 2,
                            pal,
                            width,
                            x + 1,
                            row.update(x, pack_spec(pal[d[pos + 1] as int], b as int % 32)),
                        )
                    }
                } else if b != 0 {
                    if x + b > width {
                        Err(DecodeError::Overrun)
                    } else if pos + 2 >= d.len() {
                        Err(DecodeError::UnexpectedEof)
                    } else {
                        row_spec(
                            d,
                            pos + 3,
                            pal,
                            width,
                            x + b,
                            fill(row, x, b as int, pack_spec(pal[d[pos + 2] as int], d[pos + 1] as int % 32)),
                        )
                    }
                } else if x == 0 {
                    row_spec(d, pos + 1, pal, width, x, row)
                } else {
                    Ok(row)
                }
            },
            Opcode::Pixels => {
                if x + n > width {
                    Err(DecodeError::Overrun)
                } else if pos + n >= d.len() {
                    Err(DecodeError::UnexpectedEof)
                } else {
                    row_spec(d, pos + 1 + n, pal, width, x + n, fill_indexed(row, x, n, d, pos + 1, pal))
                }
            },
            Opcode::Repeat => {
                if x + n > width {
                    Err(DecodeError::Overrun)
                } else if pos + 1 >= d.len() {
                    Err(DecodeError::UnexpectedEof)
                } else {
                    row_spec(
                        d,
                        pos + 2,
                        pal,
                        width,
                        x + n,
                        fill(row, x, n, pack_spec(pal[d[pos + 1] as int], FULL_ALPHA as int)),
                    )
                }
            },
            Opcode::Skip => {
                if x + n > width {
                    Err(DecodeError::Overrun)
                } else {
                    row_spec(d, pos + 1, pal, width, x + n, row)
                }
            },
        }
    }
}

/// The row of `width` packed pixels that the opcode stream at `pos` decodes to.
pub open spec fn scanline_spec(d: Seq<u8>, pos: int, pal: Seq<u16>, width: int) -> Result<
    Seq<u32>,
    DecodeError,
> {
    row_spec(d, pos, pal, width, 0, zeros(width))
}

/// A decoded row keeps the length of the row it started from.
pub proof fn lemma_row_len(d: Seq<u8>, pos: int, pal: Seq<u16>, width: int, x: int, row: Seq<u32>)
    requires
        row.len() == width,
        0 <= x,
    ensures
        row_spec(d, pos, pal, width, x, row) matches Ok(r) ==> r.len() == width,
    decreases d.len() - pos,
{
    if x < width && 0 <= pos < d.len() {
        let b = d[pos];
        let n = b as int % 64;
        match opcode_spec(b) {
            Opcode::Alpha => {
                if b >= 32 {
                    if pos + 1 < d.len() {
                        lemma_row_len(
                            d,
                            pos + 2,
                            pal,
                            width,
                            x + 1,
                            row.update(x, pack_spec(pal[d[pos + 1] as int], b as int % 32)),
                        );
                    }
                } else if b != 0 {
                    if x + b <= width && pos + 2 < d.len() {
                        lemma_row_len(
                            d,
                            pos + 3,
                            pal,
                            width,
                            x + b,
                            fill(row, x, b as int, pack_spec(pal[d[pos + 2] as int], d[pos + 1] as int % 32)),
                        );
                    }
                } else if x == 0 {
                    lemma_row_len(d, pos + 1, pal, width, x, row);
                }
            },
            Opcode::Pixels => {
                if x + n <= width && pos + n < d.len() {
                    lemma_row_len(d, pos + 1 + n, pal, width, x + n, fill_indexed(row, x, n, d, pos + 1, pal));
                }
            },
            Opcode::Repeat => {
                if x + n <= width && pos + 1 < d.len() {
                    lemma_row_len(
                        d,
                        pos + 2,
                        pal,
                        width,
                        x + n,
                        fill(row, x, n, pack_spec(pal[d[pos + 1] as int], FULL_ALPHA as int)),
                    );
                }
            },
            Opcode::Skip => {
                if x + n <= width {
                    lemma_row_len(d, pos + 1, pal, width, x + n, row);
                }
            },
        }
    }
}

/// The opcode that a control byte selects.
pub fn opcode_of(b: u8) -> (r: Opcode)
    ensures
        r == opcode_spec(b),
{
    match b / 64 {
        0 => Opcode::Alpha,
        1 => Opcode::Pixels,
        2 => Opcode::Repeat,
        _ => Opcode::Skip,
    }
}

/// Packs a palette color and a 5-bit alpha into one pixel.
pub fn pack(color: u16, alpha: u8) -> (r: u32)
    requires
        alpha < 32,
    ensures
        r == pack_spec(color, alpha as int),
        r as int == color as int + alpha as int * 65536,
{
    color as u32 + alpha as u32 * 65536
}

fn fill_run(row: &mut Vec<u32>, x: usize, count: usize, v: u32)
    requires
        x + count <= old(row)@.len(),
    ensures
        final(row)@ == fill(old(row)@, x as int, count as int, v),
{
    let ghost start = row@;
    let n: usize = row.len();
    let mut i: usize = 0;
    while i < count
        invariant
            n == start.len(),
            x + count <= start.len(),
            i <= count,
            row@ == fill(start, x as int, i as int, v),
        decreases count - i,
    {
        row.set(x + i, v);
        i = i + 1;
        assert(row@ =~= fill(start, x as int, i as int, v));
    }
}

fn fill_run_indexed(
    row: &mut Vec<u32>,
    x: usize,
    count: usize,
    data: &[u8],
    at: usize,
    palette: &Vec<u16>,
)
    requires
        x + count <= old(row)@.len(),
        at + count <= data@.len(),
        palette@.len() == 256,
    ensures
        final(row)@ == fill_indexed(old(row)@, x as int, count as int, data@, at as int, palette@),
{
    let ghost start = row@;
    let n: usize = row.len();
    let dn: usize = data.len();
    let mut i: usize = 0;
    while i < count
        invariant
            n == start.len(),
            dn == data@.len(),
            x + count <= start.len(),
            at + count <= data@.len(),
            palette@.len() == 256,
            i <= count,
            row@ == fill_indexed(start, x as int, i as int, data@, at as int, palette@),
        decreases count - i,
    {
        let idx = data[at + i];
        row.set(x + i, pack(palette[idx as usize], FULL_ALPHA));
        i = i + 1;
        assert(row@ =~= fill_indexed(start, x as int, i as int, data@, at as int, palette@));
    }
}

/// Decodes the opcode stream that starts at `start` into a row of `width`
/// packed pixels. Columns that no opcode writes stay zero (transparent black).
pub fn decode_scanline(data: &[u8], start: usize, palette: &Vec<u16>, width: usize) -> (r: Result<
    Vec<u32>,
    DecodeError,
>)
    requires
        palette@.len() == 256,
    ensures
        match r {
            Ok(row) => scanline_spec(data@, start as int, palette@, width as int) == Ok::<
                Seq<u32>,
                DecodeError,
            >(row@),
            Err(e) => scanline_spec(data@, start as int, palette@, width as int) == Err::<
                Seq<u32>,
                DecodeError,
            >(e),
        },
{
    let len = data.len();
    let mut row: Vec<u32> = Vec::with_capacity(width);
    let mut k: usize = 0;
    while k < width
        invariant
            k <= width,
            row@ == zeros(k as int),
        decreases width - k,
    {
        row.push(0);
        k = k + 1;
        assert(row@ =~= zeros(k as int));
    }
    if start >= len {
        return if width == 0 {
            Ok(row)
        } else {
            Err(DecodeError::UnexpectedEof)
        };
    }
    let mut pos: usize = start;
    let mut x: usize = 0;
    while x < width
        invariant
            len == data@.len(),
            palette@.len() == 256,
            pos <= len,
            x <= width,
            row@.len() == width,
            scanline_spec(data@, start as int, palette@, width as int) == row_spec(
                data@,
                pos as int,
                palette@,
                width as int,
                x as int,
                row@,
            ),
        decreases len - pos,
    {
        if pos >= len {
            return Err(DecodeError::UnexpectedEof);
        }
        let b = data[pos];
        match opcode_of(b) {
            Opcode::Alpha => {
                if b >= 32 {
                    if len - pos < 2 {
                        return Err(DecodeError::UnexpectedEof);
                    }
                    let idx = data[pos + 1];
                    row.set(x, pack(palette[idx as usize], b % 32));
                    x = x + 1;
                    pos = pos + 2;
                } else if b != 0 {
                    let count = b as usize;
                    if count > width - x {
                        return Err(DecodeError::Overrun);
                    }
                    if len - pos < 3 {
                        return Err(DecodeError::UnexpectedEof);
                    }
                    let alpha = data[pos + 1] % 32;
                    let idx = data[pos + 2];
                    fill_run(&mut row, x, count, pack(palette[idx as usize], alpha));
                    x = x + count;
                    pos = pos + 3;
                } else if x == 0 {
                    pos = pos + 1;
                } else {
                    return Ok(row);
                }
            },
            Opcode::Pixels => {
                let count = (b % 64) as usize;
                if count > width - x {
                    return Err(DecodeError::Overrun);
                }
                if len - pos <= count {
                    return Err(DecodeError::UnexpectedEof);
                }
                fill_run_indexed(&mut row, x, count, data, pos + 1, palette);
                x = x + count;
                pos = pos + 1 + count;
            },
            Opcode::Repeat => {
                let count = (b % 64) as usize;
                if count > width - x {
                    return Err(DecodeError::Overrun);
                }
                if len - pos < 2 {
                    return Err(DecodeError::UnexpectedEof);
                }
                let idx = data[pos + 1];
                fill_run(&mut row, x, count, pack(palette[idx as usize], FULL_ALPHA));
                x = x + count;
                pos = pos + 2;
            },
            Opcode::Skip => {
                let count = (b % 64) as usize;
                if count > width - x {
                    return Err(DecodeError::Overrun);
                }
                x = x + count;
                pos = pos + 1;
            },
        }
    }
    Ok(row)
}

} // verus!
