use vstd::prelude::*;

use crate::buffer_utils::{le16, le32, read_u16, read_u32};
use crate::error::DecodeError;
use crate::raster::{raster_bytes, raster_height, raster_width, rgba_spec, to_image, Raster};
use crate::scanline::{decode_scanline, lemma_row_len, scanline_spec, zeros};

verus! {

/// Bytes before the header block: the magic and the header length.
pub const SKIP_OFFSET: u16 = 4;

/// Size in bytes of the palette: 256 little-endian `u16` colors.
pub const PALETTE_SIZE: u16 = 512;

/// The sprite header.
#[derive(Debug, Clone, Copy, PartialEq, Eq, Structural)]
pub struct ImageHeader {
    /// Number of directions.
    pub direction: u16,
    /// Frames per direction.
    pub frame_count: u16,
    /// Canvas width.
    pub sprite_width: u16,
    /// Canvas height.
    pub sprite_height: u16,
    /// Origin x.
    pub sprite_x: u16,
    /// Origin y.
    pub sprite_y: u16,
    /// Length of the header block in bytes.
    pub header_len: u16,
}

/// One frame: its bounding box, its offset and one opcode-stream offset per row.
#[derive(Debug)]
pub struct Frame {
    /// Left edge of the bounding box.
    pub x: u32,
    /// Top edge of the bounding box.
    pub y: u32,
    /// Width of the frame in pixels.
    pub width: u32,
    /// Height of the frame in rows.
    pub height: u32,
    /// Offset of the frame, relative to the end of the header block.
    pub offset: u32,
    /// Offset of each row's opcode stream, relative to the same anchor as `offset`.
    pub line_offsets: Vec<u32>,
}

/// The mathematical content of a `Frame`.
pub struct FrameView {
    pub x: u32,
    pub y: u32,
    pub width: u32,
    pub height: u32,
    pub offset: u32,
    pub line_offsets: Seq<u32>,
}

impl View for Frame {
    type V = FrameView;

    open spec fn view(&self) -> FrameView {
        FrameView {
            x: self.x,
            y: self.y,
            width: self.width,
            height: self.height,
            offset: self.offset,
            line_offsets: self.line_offsets@,
        }
    }
}

impl FrameView {
    /// One row offset per row.
    pub open spec fn wf(self) -> bool {
        self.line_offsets.len() == self.height
    }
}

/// Whether the payload starts with the magic `S`, `P`.
pub open spec fn has_magic(d: Seq<u8>) -> bool {
    d.len() >= 2 && d[0] == 0x53 && d[1] == 0x50
}

/// The header that the payload holds, or why it holds none.
pub open spec fn header_spec(d: Seq<u8>) -> Result<ImageHeader, DecodeError> {
    if d.len() < 4 {
        Err(DecodeError::UnexpectedEof)
    } else {
        let hl = le16(d, 2);
        if 4 + hl > d.len() {
            Err(DecodeError::UnexpectedEof)
        } else if hl < 12 {
            Err(DecodeError::HeaderTooShort)
        } else {
            Ok(
                ImageHeader {
                    direction: le16(d, 4) as u16,
                    frame_count: le16(d, 6) as u16,
                    sprite_width: le16(d, 8) as u16,
                    sprite_height: le16(d, 10) as u16,
                    sprite_x: le16(d, 12) as u16,
                    sprite_y: le16(d, 14) as u16,
                    header_len: hl as u16,
                },
            )
        }
    }
}

/// The 256 colors that start right after the header block.
pub open spec fn palette_spec(d: Seq<u8>, hl: int) -> Result<Seq<u16>, DecodeError> {
    let base = 4 + hl;
    if base + 512 > d.len() {
        Err(DecodeError::UnexpectedEof)
    } else {
        Ok(Seq::new(256, |i: int| le16(d, base + 2 * i) as u16))
    }
}

/// The frame offsets that follow the palette, one per direction and frame.
pub open spec fn frame_offsets_spec(d: Seq<u8>, h: ImageHeader) -> Result<Seq<u32>, DecodeError> {
    let n = h.direction as int * h.frame_count as int;
    let base = 4 + h.header_len + 512;
    if base + 4 * n > d.len() {
        Err(DecodeError::UnexpectedEof)
    } else {
        Ok(Seq::new(n as nat, |i: int| le32(d, base + 4 * i) as u32))
    }
}

/// The frame whose record sits at `off + hl + 4`.
pub open spec fn frame_spec(d: Seq<u8>, off: u32, hl: u16) -> Result<FrameView, DecodeError> {
    let p = off + hl + 4;
    if p + 16 > d.len() {
        Err(DecodeError::UnexpectedEof)
    } else {
        let h = le32(d, p + 12);
        if p + 16 + 4 * h > d.len() {
            Err(DecodeError::UnexpectedEof)
        } else {
            Ok(
                FrameView {
                    x: le32(d, p) as u32,
                    y: le32(d, p + 4) as u32,
                    width: le32(d, p + 8) as u32,
                    height: h as u32,
                    offset: off,
                    line_offsets: Seq::new(h as nat, |i: int| le32(d, p + 16 + 4 * i) as u32),
                },
            )
        }
    }
}

/// The frames at the given offsets, in order; the first failure wins.
pub open spec fn frames_spec(d: Seq<u8>, offs: Seq<u32>, hl: u16) -> Result<
    Seq<FrameView>,
    DecodeError,
>
    decreases offs.len(),
{
    if offs.len() == 0 {
        Ok(Seq::empty())
    } else {
        match frames_spec(d, offs.drop_last(), hl) {
            Err(e) => Err(e),
            Ok(fs) => match frame_spec(d, offs.last(), hl) {
                Err(e) => Err(e),
                Ok(f) => Ok(fs.push(f)),
            },
        }
    }
}

/// Where the opcode stream of row `y` of `f` starts.
pub open spec fn line_start(f: FrameView, hl: u16, y: int) -> int {
    f.line_offsets[y] + f.offset + hl + 4
}

/// The first `n` rows of `f`, decoded and laid end to end.
pub open spec fn pixels_spec(d: Seq<u8>, f: FrameView, hl: u16, pal: Seq<u16>, n: int) -> Result<
    Seq<u32>,
    DecodeError,
>
    decreases n,
{
    if n <= 0 {
        Ok(Seq::empty())
    } else {
        match pixels_spec(d, f, hl, pal, n - 1) {
            Err(e) => Err(e),
            Ok(acc) => match scanline_spec(d, line_start(f, hl, n - 1), pal, f.width as int) {
                Err(e) => Err(e),
                Ok(r) => Ok(acc + r),
            },
        }
    }
}

/// A failure among the first `k` frames is the failure of the whole table.
pub proof fn lemma_frames_error_persists(d: Seq<u8>, offs: Seq<u32>, k: int, hl: u16)
    requires
        0 <= k <= offs.len(),
        frames_spec(d, offs.subrange(0, k), hl) is Err,
    ensures
        frames_spec(d, offs, hl) == frames_spec(d, offs.subrange(0, k), hl),
    decreases offs.len(),
{
    if k == offs.len() {
        assert(offs.subrange(0, k) =~= offs);
    } else {
        assert(offs.drop_last().subrange(0, k) =~= offs.subrange(0, k));
        lemma_frames_error_persists(d, offs.drop_last(), k, hl);
    }
}

/// A failure among the first `k` rows is the failure of the whole frame.
pub proof fn lemma_pixels_error_persists(
    d: Seq<u8>,
    f: FrameView,
    hl: u16,
    pal: Seq<u16>,
    k: int,
    n: int,
)
    requires
        0 <= k <= n,
        pixels_spec(d, f, hl, pal, k) is Err,
    ensures
        pixels_spec(d, f, hl, pal, n) == pixels_spec(d, f, hl, pal, k),
    decreases n,
{
    if k < n {
        lemma_pixels_error_persists(d, f, hl, pal, k, n - 1);
    }
}

/// Whether the payload starts with the sprite magic.
pub fn check_file_format(data: &[u8]) -> (r: bool)
    ensures
        r == has_magic(data@),
{
    data.len() >= 2 && data[0] == 0x53 && data[1] == 0x50
}

/// Reads the header length and the header block.
pub fn read_imageheader(data: &[u8]) -> (r: Result<ImageHeader, DecodeError>)
    ensures
        match r {
            Ok(h) => header_spec(data@) == Ok::<ImageHeader, DecodeError>(h),
            Err(e) => header_spec(data@) == Err::<ImageHeader, DecodeError>(e),
        },
{
    if data.len() < 4 {
        return Err(DecodeError::UnexpectedEof);
    }
    let mut pos: usize = 2;
    let header_len = read_u16(data, &mut pos)?;
    if data.len() - 4 < header_len as usize {
        return Err(DecodeError::UnexpectedEof);
    }
    if header_len < 12 {
        return Err(DecodeError::HeaderTooShort);
    }
    let direction = read_u16(data, &mut pos)?;
    let frame_count = read_u16(data, &mut pos)?;
    let sprite_width = read_u16(data, &mut pos)?;
    let sprite_height = read_u16(data, &mut pos)?;
    let sprite_x = read_u16(data, &mut pos)?;
    let sprite_y = read_u16(data, &mut pos)?;
    Ok(ImageHeader {
        direction,
        frame_count,
        sprite_width,
        sprite_height,
        sprite_x,
        sprite_y,
        header_len,
    })
}

/// Reads the 256 palette colors that follow the header block.
pub fn read_palette(data: &[u8], image_header: &ImageHeader) -> (r: Result<Vec<u16>, DecodeError>)
    ensures
        match r {
            Ok(p) => palette_spec(data@, image_header.header_len as int) == Ok::<
                Seq<u16>,
                DecodeError,
            >(p@),
            Err(e) => palette_spec(data@, image_header.header_len as int) == Err::<
                Seq<u16>,
                DecodeError,
            >(e),
        },
{
    let base: usize = SKIP_OFFSET as usize + image_header.header_len as usize;
    if data.len() < base || data.len() - base < PALETTE_SIZE as usize {
        return Err(DecodeError::UnexpectedEof);
    }
    let mut palette: Vec<u16> = Vec::with_capacity(256);
    let mut pos: usize = base;
    let mut i: usize = 0;
    while i < 256
        invariant
            base + 512 <= data@.len(),
            i <= 256,
            pos == base + 2 * i,
            palette@ == Seq::new(i as nat, |k: int| le16(data@, base + 2 * k) as u16),
        decreases 256 - i,
    {
        let c = read_u16(data, &mut pos)?;
        palette.push(c);
        i = i + 1;
        assert(palette@ =~= Seq::new(i as nat, |k: int| le16(data@, base + 2 * k) as u16));
    }
    Ok(palette)
}

/// The views of a sequence of frames.
pub open spec fn frame_views(fs: Seq<Frame>) -> Seq<FrameView> {
    fs.map_values(|f: Frame| f@)
}

/// Reads the table of frame offsets that follows the palette.
pub fn read_frame_offset(data: &[u8], image_header: &ImageHeader) -> (r: Result<
    Vec<u32>,
    DecodeError,
>)
    ensures
        match r {
            Ok(o) => frame_offsets_spec(data@, *image_header) == Ok::<Seq<u32>, DecodeError>(o@),
            Err(e) => frame_offsets_spec(data@, *image_header) == Err::<Seq<u32>, DecodeError>(e),
        },
{
    let d: u64 = image_header.direction as u64;
    let fc: u64 = image_header.frame_count as u64;
    assert(d * fc <= 65535 * 65535) by (nonlinear_arith)
        requires
            d <= 65535,
            fc <= 65535,
    ;
    let n: u64 = d * fc;
    let base: u64 = SKIP_OFFSET as u64 + image_header.header_len as u64 + PALETTE_SIZE as u64;
    if base + 4 * n > data.len() as u64 {
        return Err(DecodeError::UnexpectedEof);
    }
    let count: usize = n as usize;
    let ghost b = base as int;
    let mut offsets: Vec<u32> = Vec::with_capacity(count);
    let mut pos: usize = base as usize;
    let mut i: usize = 0;
    while i < count
        invariant
            b + 4 * count <= data@.len(),
            count == n,
            b == 4 + image_header.header_len + 512,
            i <= count,
            pos == b + 4 * i,
            offsets@ == Seq::new(i as nat, |k: int| le32(data@, b + 4 * k) as u32),
        decreases count - i,
    {
        let v = read_u32(data, &mut pos)?;
        offsets.push(v);
        i = i + 1;
        assert(offsets@ =~= Seq::new(i as nat, |k: int| le32(data@, b + 4 * k) as u32));
    }
    Ok(offsets)
}

/// Reads the frame record at `offset + header_len + 4` and its row offsets.
pub fn read_one_frame(data: &[u8], offset: u32, header_len: u16) -> (r: Result<Frame, DecodeError>)
    ensures
        match r {
            Ok(f) => frame_spec(data@, offset, header_len) == Ok::<FrameView, DecodeError>(f@)
                && f@.wf(),
            Err(e) => frame_spec(data@, offset, header_len) == Err::<FrameView, DecodeError>(e),
        },
{
    let p: u64 = offset as u64 + header_len as u64 + SKIP_OFFSET as u64;
    let len: usize = data.len();
    if p + 16 > len as u64 {
        return Err(DecodeError::UnexpectedEof);
    }
    let mut pos: usize = p as usize;
    let x = read_u32(data, &mut pos)?;
    let y = read_u32(data, &mut pos)?;
    let width = read_u32(data, &mut pos)?;
    let height = read_u32(data, &mut pos)?;
    if 4 * (height as u64) > (len - pos) as u64 {
        return Err(DecodeError::UnexpectedEof);
    }
    let ghost s = p as int + 16;
    let count: usize = height as usize;
    let mut line_offsets: Vec<u32> = Vec::with_capacity(count);
    let mut i: usize = 0;
    while i < count
        invariant
            len == data@.len(),
            s + 4 * count <= len,
            count == height,
            i <= count,
            pos == s + 4 * i,
            line_offsets@ == Seq::new(i as nat, |k: int| le32(data@, s + 4 * k) as u32),
        decreases count - i,
    {
        let v = read_u32(data, &mut pos)?;
        line_offsets.push(v);
        i = i + 1;
        assert(line_offsets@ =~= Seq::new(i as nat, |k: int| le32(data@, s + 4 * k) as u32));
    }
    Ok(Frame { x, y, width, height, offset, line_offsets })
}

/// Reads the frame at each offset, in order.
pub fn read_frame(data: &[u8], frame_offsets: Vec<u32>, image_header: &ImageHeader) -> (r: Result<
    Vec<Frame>,
    DecodeError,
>)
    ensures
        match r {
            Ok(fs) => frames_spec(data@, frame_offsets@, image_header.header_len) == Ok::<
                Seq<FrameView>,
                DecodeError,
            >(frame_views(fs@)) && forall|k: int| 0 <= k < fs@.len() ==> (#[trigger] fs@[k])@.wf(),
            Err(e) => frames_spec(data@, frame_offsets@, image_header.header_len) == Err::<
                Seq<FrameView>,
                DecodeError,
            >(e),
        },
{
    let hl = image_header.header_len;
    let mut result: Vec<Frame> = Vec::new();
    let mut i: usize = 0;
    assert(frame_offsets@.subrange(0, 0) =~= Seq::<u32>::empty());
    assert(frame_views(result@) =~= Seq::<FrameView>::empty());
    while i < frame_offsets.len()
        invariant
            i <= frame_offsets@.len(),
            hl == image_header.header_len,
            frames_spec(data@, frame_offsets@.subrange(0, i as int), hl) == Ok::<
                Seq<FrameView>,
                DecodeError,
            >(frame_views(result@)),
        decreases frame_offsets@.len() - i,
    {
        let ghost prefix = frame_offsets@.subrange(0, i as int + 1);
        assert(prefix.drop_last() =~= frame_offsets@.subrange(0, i as int));
        assert(prefix.last() == frame_offsets@[i as int]);
        let ghost before = frame_views(result@);
        let f = match read_one_frame(data, frame_offsets[i], hl) {
            Ok(f) => f,
            Err(e) => {
                proof {
                    lemma_frames_error_persists(data@, frame_offsets@, i as int + 1, hl);
                }
                return Err(e);
            },
        };
        let ghost fv = f@;
        result.push(f);
        i = i + 1;
        assert(frame_views(result@) =~= before.push(fv));
    }
    assert(frame_offsets@.subrange(0, frame_offsets@.len() as int) =~= frame_offsets@);
    proof {
        let fvs = frame_views(result@);
        lemma_frames_wf(data@, frame_offsets@, hl, fvs);
        assert forall|k: int| 0 <= k < result@.len() implies (#[trigger] result@[k])@.wf() by {
            assert(fvs[k] == result@[k]@);
            assert(fvs[k].wf());
        }
    }
    Ok(result)
}

/// Decodes every row of `frame` into one buffer of `width * height` packed pixels,
/// row after row.
pub fn read_pixel(frame: &Frame, image_header: &ImageHeader, data: &[u8], palette: &Vec<u16>) -> (r:
    Result<Vec<u32>, DecodeError>)
    requires
        frame@.wf(),
        palette@.len() == 256,
        frame.width as int * frame.height as int <= usize::MAX,
    ensures
        match r {
            Ok(p) => pixels_spec(
                data@,
                frame@,
                image_header.header_len,
                palette@,
                frame.height as int,
            ) == Ok::<Seq<u32>, DecodeError>(p@) && p@.len() == frame.width as int
                * frame.height as int,
            Err(e) => pixels_spec(
                data@,
                frame@,
                image_header.header_len,
                palette@,
                frame.height as int,
            ) == Err::<Seq<u32>, DecodeError>(e),
        },
{
    let hl = image_header.header_len;
    let len: usize = data.len();
    let width: usize = frame.width as usize;
    let mut pixels: Vec<u32> = Vec::new();
    let mut y: u32 = 0;
    while y < frame.height
        invariant
            frame@.wf(),
            palette@.len() == 256,
            len == data@.len(),
            hl == image_header.header_len,
            width == frame.width,
            frame.width as int * frame.height as int <= usize::MAX,
            y <= frame.height,
            pixels@.len() == width * y,
            pixels_spec(data@, frame@, hl, palette@, y as int) == Ok::<Seq<u32>, DecodeError>(
                pixels@,
            ),
        decreases frame.height - y,
    {
        let s: u64 = frame.line_offsets[y as usize] as u64 + frame.offset as u64 + hl as u64
            + SKIP_OFFSET as u64;
        let start: usize = if s >= len as u64 {
            len
        } else {
            s as usize
        };
        proof {
            assert(s == line_start(frame@, hl, y as int));
            assert(scanline_spec(data@, s as int, palette@, width as int) == scanline_spec(
                data@,
                start as int,
                palette@,
                width as int,
            ));
        }
        let mut row = match decode_scanline(data, start, palette, width) {
            Ok(row) => row,
            Err(e) => {
                proof {
                    lemma_pixels_error_persists(
                        data@,
                        frame@,
                        hl,
                        palette@,
                        y as int + 1,
                        frame.height as int,
                    );
                }
                return Err(e);
            },
        };
        proof {
            lemma_row_len(data@, start as int, palette@, width as int, 0, zeros(width as int));
            assert(width * (y + 1) == width * y + width) by (nonlinear_arith);
            assert(width * (y + 1) <= width * frame.height) by (nonlinear_arith)
                requires
                    y + 1 <= frame.height,
            ;
        }
        let ghost prev = pixels@;
        let ghost row_view = row@;
        pixels.append(&mut row);
        y = y + 1;
        assert(pixels@ =~= prev + row_view);
    }
    Ok(pixels)
}

/// Whether the image of `f` fits in memory as RGBA bytes.
pub open spec fn raster_fits(f: FrameView) -> bool {
    4 * f.width as int <= usize::MAX && 4 * f.width as int * f.height as int <= usize::MAX
}

/// The packed pixels of the first `n` frames of `fs`; the first failure wins.
pub open spec fn images_spec(
    d: Seq<u8>,
    fs: Seq<FrameView>,
    hl: u16,
    pal: Seq<u16>,
    n: int,
) -> Result<Seq<Seq<u32>>, DecodeError>
    decreases n,
{
    if n <= 0 {
        Ok(Seq::empty())
    } else {
        match images_spec(d, fs, hl, pal, n - 1) {
            Err(e) => Err(e),
            Ok(acc) => {
                let f = fs[n - 1];
                if !raster_fits(f) {
                    Err(DecodeError::ImageTooLarge)
                } else {
                    match pixels_spec(d, f, hl, pal, f.height as int) {
                        Err(e) => Err(e),
                        Ok(p) => Ok(acc.push(p)),
                    }
                }
            },
        }
    }
}

/// What a whole sprite payload decodes to: its header, its frames and the
/// packed pixels of each frame.
pub open spec fn was_spec(d: Seq<u8>) -> Result<
    (ImageHeader, Seq<FrameView>, Seq<Seq<u32>>),
    DecodeError,
> {
    if !has_magic(d) {
        Err(DecodeError::BadMagic)
    } else {
        match header_spec(d) {
            Err(e) => Err(e),
            Ok(h) => match palette_spec(d, h.header_len as int) {
                Err(e) => Err(e),
                Ok(pal) => match frame_offsets_spec(d, h) {
                    Err(e) => Err(e),
                    Ok(offs) => match frames_spec(d, offs, h.header_len) {
                        Err(e) => Err(e),
                        Ok(fs) => match images_spec(d, fs, h.header_len, pal, fs.len() as int) {
                            Err(e) => Err(e),
                            Ok(px) => Ok((h, fs, px)),
                        },
                    },
                },
            },
        }
    }
}

/// Whether `img` is the image of frame `f` with packed pixels `px`.
pub open spec fn raster_of(img: Raster, f: FrameView, px: Seq<u32>) -> bool {
    &&& raster_bytes(img) == rgba_spec(px)
    &&& raster_width(img) == f.width
    &&& raster_height(img) == f.height
}

/// Whether a decoded sprite is what `was_spec` gives for the payload `d`.
pub open spec fn was_result_matches(d: Seq<u8>, h: ImageHeader, fs: Seq<Frame>, imgs: Seq<Raster>) -> bool {
    match was_spec(d) {
        Ok((hs, fvs, pxs)) => {
            &&& h == hs
            &&& frame_views(fs) == fvs
            &&& imgs.len() == pxs.len()
            &&& forall|k: int| 0 <= k < pxs.len() ==> raster_of(#[trigger] imgs[k], fvs[k], pxs[k])
        },
        Err(_) => false,
    }
}

/// Every frame read from a table has one row offset per row.
pub proof fn lemma_frames_wf(d: Seq<u8>, offs: Seq<u32>, hl: u16, fs: Seq<FrameView>)
    requires
        frames_spec(d, offs, hl) == Ok::<Seq<FrameView>, DecodeError>(fs),
    ensures
        forall|k: int| 0 <= k < fs.len() ==> (#[trigger] fs[k]).wf(),
    decreases offs.len(),
{
    if offs.len() > 0 {
        let prev = frames_spec(d, offs.drop_last(), hl)->Ok_0;
        lemma_frames_wf(d, offs.drop_last(), hl, prev);
        let f = frame_spec(d, offs.last(), hl)->Ok_0;
        assert(fs == prev.push(f));
        assert forall|k: int| 0 <= k < fs.len() implies (#[trigger] fs[k]).wf() by {
            if k < prev.len() {
                assert(fs[k] == prev[k]);
            }
        }
    }
}

/// A failure among the first `k` frames is the failure of the whole sprite.
pub proof fn lemma_images_error_persists(
    d: Seq<u8>,
    fs: Seq<FrameView>,
    hl: u16,
    pal: Seq<u16>,
    k: int,
    n: int,
)
    requires
        0 <= k <= n,
        images_spec(d, fs, hl, pal, k) is Err,
    ensures
        images_spec(d, fs, hl, pal, n) == images_spec(d, fs, hl, pal, k),
    decreases n,
{
    if k < n {
        lemma_images_error_persists(d, fs, hl, pal, k, n - 1);
    }
}

/// A decoded sprite: its header, its frames and one image per frame.
pub type WasInfo = (ImageHeader, Vec<Frame>, Vec<Raster>);

/// Decodes a whole sprite payload: header, palette, frames and one image per frame.
pub fn get_images(data: &[u8]) -> (r: Result<WasInfo, DecodeError>)
    ensures
        match r {
            Ok((h, fs, imgs)) => was_result_matches(data@, h, fs@, imgs@),
            Err(e) => was_spec(data@) == Err::<(ImageHeader, Seq<FrameView>, Seq<Seq<u32>>), DecodeError>(e),
        },
        !has_magic(data@) ==> (r matches Err(e) && e == DecodeError::BadMagic),
{
    if !check_file_format(data) {
        return Err(DecodeError::BadMagic);
    }
    let image_header = read_imageheader(data)?;
    let palette = read_palette(data, &image_header)?;
    let frame_offset = read_frame_offset(data, &image_header)?;
    let ghost offs = frame_offset@;
    let frames = read_frame(data, frame_offset, &image_header)?;
    let ghost fvs = frame_views(frames@);
    let ghost hl = image_header.header_len;
    proof {
        lemma_frames_wf(data@, offs, hl, fvs);
    }
    let mut images: Vec<Raster> = Vec::new();
    let ghost mut pxs: Seq<Seq<u32>> = Seq::empty();
    let mut i: usize = 0;
    while i < frames.len()
        invariant
            has_magic(data@),
            header_spec(data@) == Ok::<ImageHeader, DecodeError>(image_header),
            palette_spec(data@, hl as int) == Ok::<Seq<u16>, DecodeError>(palette@),
            frame_offsets_spec(data@, image_header) == Ok::<Seq<u32>, DecodeError>(offs),
            frames_spec(data@, offs, hl) == Ok::<Seq<FrameView>, DecodeError>(fvs),
            fvs == frame_views(frames@),
            hl == image_header.header_len,
            palette@.len() == 256,
            forall|k: int| 0 <= k < fvs.len() ==> (#[trigger] fvs[k]).wf(),
            i <= frames@.len(),
            images@.len() == i,
            pxs.len() == i,
            images_spec(data@, fvs, hl, palette@, i as int) == Ok::<Seq<Seq<u32>>, DecodeError>(pxs),
            forall|k: int| 0 <= k < i ==> raster_of(#[trigger] images@[k], fvs[k], pxs[k]),
        decreases frames@.len() - i,
    {
        let frame = &frames[i];
        assert(frame@ == fvs[i as int]);
        let w = frame.width;
        let h = frame.height;
        assert(w as int * h as int <= 0xffff_ffff * 0xffff_ffff) by (nonlinear_arith)
            requires
                w <= 0xffff_ffff,
                h <= 0xffff_ffff,
        ;
        let wh: u64 = w as u64 * h as u64;
        let limit: u64 = (usize::MAX / 4) as u64;
        assert(4 * (w as int * h as int) == 4 * w as int * h as int) by (nonlinear_arith);
        if w as u64 > limit || wh > limit {
            proof {
                assert(!raster_fits(fvs[i as int]));
                lemma_images_error_persists(data@, fvs, hl, palette@, i as int + 1, fvs.len() as int);
            }
            return Err(DecodeError::ImageTooLarge);
        }
        let pixel = match read_pixel(frame, &image_header, data, &palette) {
            Ok(p) => p,
            Err(e) => {
                proof {
                    lemma_images_error_persists(data@, fvs, hl, palette@, i as int + 1, fvs.len() as int);
                }
                return Err(e);
            },
        };
        let ghost pv = pixel@;
        let image = to_image(pixel, w, h);
        images.push(image);
        proof {
            pxs = pxs.push(pv);
        }
        i = i + 1;
    }
    Ok((image_header, frames, images))
}

} // verus!
