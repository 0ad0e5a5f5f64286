use was_decoder::buffer_utils::{read_bytes, read_u16, read_u32, read_u8};
use was_decoder::error::DecodeError;
use was_decoder::load_was;
use was_decoder::raster::{rgba_bytes, to_image};
use was_decoder::scanline::{decode_scanline, pack};
use was_decoder::was::{
    check_file_format, get_images, read_frame, read_frame_offset, read_imageheader, read_palette,
    read_pixel, ImageHeader,
};
use was_decoder::wdf::{
    decode, get_filelist, get_filetype, lookup, set_filetypes, transfer_filetype, FileInfo, FileType,
};

fn push16(v: &mut Vec<u8>, x: u16) {
    v.extend_from_slice(&x.to_le_bytes());
}

fn push32(v: &mut Vec<u8>, x: u32) {
    v.extend_from_slice(&x.to_le_bytes());
}

struct FrameSpec {
    x: u32,
    y: u32,
    width: u32,
    rows: Vec<Vec<u8>>,
}

/// Lays out a sprite payload with a 12-byte header block plus `pad` bytes.
fn sprite(dir: u16, fc: u16, canvas: (u16, u16), pad: u16, palette: &[u16], frames: &[FrameSpec]) -> Vec<u8> {
    let hl: u16 = 12 + pad;
    let mut v = vec![0x53, 0x50];
    push16(&mut v, hl);
    for f in [dir, fc, canvas.0, canvas.1, 3, 4] {
        push16(&mut v, f);
    }
    v.extend(std::iter::repeat(0u8).take(pad as usize));
    for i in 0..256 {
        push16(&mut v, *palette.get(i).unwrap_or(&0));
    }
    // offsets are relative to 4 + hl
    let mut rel: u32 = 512 + 4 * frames.len() as u32;
    let mut body: Vec<u8> = vec![];
    let mut offs = vec![];
    for f in frames {
        offs.push(rel);
        let h = f.rows.len() as u32;
        let mut rec = vec![];
        push32(&mut rec, f.x);
        push32(&mut rec, f.y);
        push32(&mut rec, f.width);
        push32(&mut rec, h);
        let mut row_rel = 16 + 4 * h;
        let mut rows = vec![];
        for r in &f.rows {
            push32(&mut rec, row_rel);
            rows.extend_from_slice(r);
            row_rel += r.len() as u32;
        }
        rec.extend(rows);
        rel += rec.len() as u32;
        body.extend(rec);
    }
    for o in offs {
        push32(&mut v, o);
    }
    v.extend(body);
    v
}

/// Lays out an archive: header, payloads, then the entry table.
fn archive(entries: &[(u32, Vec<u8>)]) -> Vec<u8> {
    let mut payloads = vec![];
    let mut table = vec![];
    let mut at: u32 = 12;
    for (uid, p) in entries {
        push32(&mut table, *uid);
        push32(&mut table, at);
        push32(&mut table, p.len() as u32);
        push32(&mut table, 0);
        at += p.len() as u32;
        payloads.extend_from_slice(p);
    }
    let mut v = vec![];
    push32(&mut v, 0);
    push32(&mut v, entries.len() as u32);
    push32(&mut v, at);
    v.extend(payloads);
    v.extend(table);
    v
}

fn one_row_sprite(color: u16, row: Vec<u8>) -> Vec<u8> {
    let mut pal = vec![0u16; 256];
    pal[0] = color;
    sprite(1, 1, (2, 1), 0, &pal, &[FrameSpec { x: 0, y: 0, width: 2, rows: vec![row] }])
}

/// PIXELS count=1 index=0, REPEAT count=1 index=0, with palette[0] pure red in 5-6-5.
fn red_sprite() -> Vec<u8> {
    one_row_sprite(0xF800, vec![0x41, 0x00, 0x81, 0x00])
}

fn info(offset: u32, size: u32) -> FileInfo {
    FileInfo { uid: 9, offset, size, space: 0, file_type: FileType::Unknown(0) }
}

#[test]
fn test_geet_was() {
    let was_key: u32 = 1577923263;
    let data = archive(&[(7, vec![1, 2, 3]), (was_key, red_sprite())]);
    let (header, frames, images) = load_was(&data, &was_key).unwrap();
    assert_eq!(header.direction, 1);
    assert_eq!(frames.len(), 1);
    assert_eq!(images.len(), 1);
    assert_eq!(load_was(&data, &1).err(), Some(DecodeError::NotFound));
}

#[test]
fn was_test_decode() {
    let data = red_sprite();
    let (header, frames, images) = get_images(&data).unwrap();
    assert_eq!(header.sprite_width, 2);
    assert_eq!(header.sprite_height, 1);
    assert_eq!(frames[0].width, 2);
    assert_eq!(images[0].image.width(), 2);
}

#[test]
fn wdf_test_decode() {
    let data = archive(&[(1, red_sprite()), (2, vec![0x42, 0x4D, 0, 0, 0, 0, 0, 0])]);
    let file_list = decode(&data).unwrap();
    assert_eq!(file_list.len() > 0, true);
}

#[test]
fn archive_has_one_key_per_record() {
    let data = archive(&[(10, vec![0; 8]), (20, vec![1; 8]), (30, vec![2; 8])]);
    let files = decode(&data).unwrap();
    assert_eq!(files.len(), 3);
    for (i, uid) in [10u32, 20, 30].iter().enumerate() {
        let f = lookup(&files, *uid).unwrap();
        assert_eq!(f.uid, *uid);
        assert_eq!(f.offset, 12 + 8 * i as u32);
        assert_eq!(f.size, 8);
    }
    assert_eq!(lookup(&files, 40).err(), Some(DecodeError::NotFound));
}

#[test]
fn archive_later_duplicate_wins() {
    let data = archive(&[(5, vec![0; 4]), (5, vec![0; 6])]);
    let files = decode(&data).unwrap();
    assert_eq!(files.len(), 1);
    assert_eq!(lookup(&files, 5).unwrap().size, 6);
}

#[test]
fn archive_empty_and_errors() {
    let data = archive(&[]);
    assert_eq!(decode(&data).unwrap().len(), 0);
    assert_eq!(decode(&[0u8; 11]).err(), Some(DecodeError::UnexpectedEof));
    let mut big = vec![];
    push32(&mut big, 0);
    push32(&mut big, 1000);
    push32(&mut big, 12);
    assert_eq!(decode(&big).err(), Some(DecodeError::TableTooLarge));
}

#[test]
fn sniff_bitmap_sprite_unknown() {
    let data = archive(&[
        (1, vec![0x42, 0x4D, 9, 9, 9, 9, 9, 9, 9, 9]),
        (2, vec![0x53, 0x50, 9, 9, 9, 9, 9, 9, 9, 9]),
        (3, vec![1, 2, 3, 4, 5, 6, 7, 8, 9, 10]),
    ]);
    let files = decode(&data).unwrap();
    assert_eq!(lookup(&files, 1).unwrap().file_type, FileType::BMP(6));
    assert_eq!(lookup(&files, 2).unwrap().file_type, FileType::WAS(1));
    assert_eq!(lookup(&files, 3).unwrap().file_type, FileType::Unknown(0));
}

#[test]
fn sniff_other_signatures() {
    let wav = b"RIFF\x00\x00\x00\x00WAVEfmt ".to_vec();
    let mp3 = vec![0xFF, 0x00, 1, 1, 1, 1, 1, 1, 1, 1];
    let jpg = vec![1, 1, 1, 1, 1, 1, 0x10, 0x4A, 0x46, 0x49, 1, 1];
    let tga = vec![1, 1, 1, 1, 1, 1, 1, 1, 0x46, 0x49, 0x4C, 0x45, 1, 1];
    let lua = vec![1, 1, 1, 1, 0x00, 0x0F, 1, 1, 1, 1];
    let lua_tail = vec![1, 1, 1, 1, 0x00, 0x10, 1, 1, 1, 0x11, 0, 0];
    let data = archive(&[(1, wav), (2, mp3), (3, jpg), (4, tga), (5, lua), (6, lua_tail)]);
    let files = decode(&data).unwrap();
    assert_eq!(lookup(&files, 1).unwrap().file_type, FileType::WAV(5));
    assert_eq!(lookup(&files, 2).unwrap().file_type, FileType::MP3(2));
    assert_eq!(lookup(&files, 3).unwrap().file_type, FileType::JPG(3));
    assert_eq!(lookup(&files, 4).unwrap().file_type, FileType::TGA(4));
    assert_eq!(lookup(&files, 5).unwrap().file_type, FileType::LUA(7));
    assert_eq!(lookup(&files, 6).unwrap().file_type, FileType::LUA(7));
}

#[test]
fn sniff_reads_zero_outside_archive() {
    let data = vec![0x42, 0x4D];
    let mut f = info(0, 2);
    get_filetype(&mut f, &data);
    assert_eq!(f.file_type, FileType::BMP(6));
    let mut g = info(100, 3);
    get_filetype(&mut g, &data);
    assert_eq!(g.file_type, FileType::Unknown(0));
    assert_eq!(g.offset, 100);
}

#[test]
fn transfer_filetype_rules_in_order() {
    let mut f = info(0, 0);
    transfer_filetype(0x5053, &mut f, 0x49464A10, 0, 0, vec![0, 0, 0], 0);
    assert_eq!(f.file_type, FileType::WAS(1));
    transfer_filetype(0x4D42, &mut f, 0, 0, 0, vec![0, 0, 0], 0);
    assert_eq!(f.file_type, FileType::BMP(6));
    transfer_filetype(0, &mut f, 0x49464A10, 0x454C4946, 0, vec![0, 0, 0], 0);
    assert_eq!(f.file_type, FileType::JPG(3));
    transfer_filetype(0, &mut f, 0, 0x454C4946, 0, vec![0, 0, 0], 0);
    assert_eq!(f.file_type, FileType::TGA(4));
    transfer_filetype(0x4952, &mut f, 0, 0, 0x45564157, vec![0, 0, 0], 0);
    assert_eq!(f.file_type, FileType::WAV(5));
    transfer_filetype(0x00FF, &mut f, 0, 0, 0, vec![0, 0, 0], 0);
    assert_eq!(f.file_type, FileType::MP3(2));
    transfer_filetype(0, &mut f, 0, 0, 0, vec![0x11, 0, 0], 0x1000);
    assert_eq!(f.file_type, FileType::LUA(7));
    transfer_filetype(0, &mut f, 0, 0, 0, vec![0x12, 0, 0], 0x1000);
    assert_eq!(f.file_type, FileType::Unknown(0));
    transfer_filetype(0, &mut f, 0, 0, 0, vec![0, 0, 0], 0x0F00);
    assert_eq!(f.file_type, FileType::LUA(7));
    assert_eq!(f.uid, 9);
}

#[test]
fn bad_magic_is_rejected() {
    let mut data = red_sprite();
    data[0] = 0x50;
    data[1] = 0x53;
    assert!(!check_file_format(&data));
    assert_eq!(get_images(&data).err(), Some(DecodeError::BadMagic));
    assert_eq!(get_images(&[]).err(), Some(DecodeError::BadMagic));
}

#[test]
fn header_fields_and_errors() {
    let data = sprite(2, 3, (40, 50), 4, &[], &[]);
    let h = read_imageheader(&data).unwrap();
    assert_eq!(
        h,
        ImageHeader {
            direction: 2,
            frame_count: 3,
            sprite_width: 40,
            sprite_height: 50,
            sprite_x: 3,
            sprite_y: 4,
            header_len: 16
        }
    );
    let short = vec![0x53, 0x50, 10, 0, 0, 0, 0, 0, 0, 0, 0, 0, 0, 0];
    assert_eq!(read_imageheader(&short).err(), Some(DecodeError::HeaderTooShort));
    let truncated = vec![0x53, 0x50, 12, 0, 1, 0];
    assert_eq!(read_imageheader(&truncated).err(), Some(DecodeError::UnexpectedEof));
}

#[test]
fn palette_of_zero_bytes_is_zero() {
    let mut data = vec![0x53, 0x50, 12, 0];
    data.extend(vec![0u8; 12]);
    data.extend(vec![0u8; 512]);
    let h = read_imageheader(&data).unwrap();
    let p = read_palette(&data, &h).unwrap();
    assert_eq!(p.len(), 256);
    assert!(p.iter().all(|c| *c == 0));
    data.pop();
    assert_eq!(read_palette(&data, &h).err(), Some(DecodeError::UnexpectedEof));
}

#[test]
fn palette_values_little_endian() {
    let mut pal = vec![0u16; 256];
    pal[0] = 0x1234;
    pal[255] = 0xABCD;
    let data = sprite(0, 0, (0, 0), 2, &pal, &[]);
    let h = read_imageheader(&data).unwrap();
    let p = read_palette(&data, &h).unwrap();
    assert_eq!(p[0], 0x1234);
    assert_eq!(p[255], 0xABCD);
}

#[test]
fn frame_table_and_frames() {
    let data = sprite(
        1,
        2,
        (4, 4),
        0,
        &[],
        &[
            FrameSpec { x: 1, y: 2, width: 3, rows: vec![vec![0xC3], vec![0xC3]] },
            FrameSpec { x: 5, y: 6, width: 1, rows: vec![vec![0xC1]] },
        ],
    );
    let h = read_imageheader(&data).unwrap();
    let offs = read_frame_offset(&data, &h).unwrap();
    assert_eq!(offs, vec![520, 520 + 16 + 8 + 2]);
    let frames = read_frame(&data, offs, &h).unwrap();
    assert_eq!(frames.len(), 2);
    assert_eq!((frames[0].x, frames[0].y, frames[0].width, frames[0].height), (1, 2, 3, 2));
    assert_eq!(frames[0].line_offsets, vec![24, 25]);
    assert_eq!(frames[1].offset, 546);
    assert_eq!(frames[1].line_offsets, vec![20]);
    let pal = read_palette(&data, &h).unwrap();
    assert_eq!(read_pixel(&frames[0], &h, &data, &pal).unwrap(), vec![0; 6]);
    assert_eq!(read_frame(&data, vec![100_000], &h).err(), Some(DecodeError::UnexpectedEof));
}

#[test]
fn scanline_pixels_opcode() {
    let mut pal = vec![0u16; 256];
    pal[5] = 0x1234;
    let row = decode_scanline(&[0x41, 5], 0, &pal, 1).unwrap();
    assert_eq!(row, vec![0x1234 + (0x1F << 16)]);
}

#[test]
fn scanline_skip_leaves_transparent() {
    let mut pal = vec![0u16; 256];
    pal[5] = 0x1234;
    let row = decode_scanline(&[0xC1, 0x41, 5], 0, &pal, 2).unwrap();
    assert_eq!(row, vec![0, 0x1234 + (0x1F << 16)]);
}

#[test]
fn scanline_alpha_opcodes() {
    let mut pal = vec![0u16; 256];
    pal[2] = 0x00FF;
    pal[3] = 0xF000;
    // single pixel with alpha 5, then a run of 2 with alpha byte 0x27 (7), then the end marker
    let data = [0x00, 0x25, 2, 0x02, 0x27, 3, 0x00];
    let row = decode_scanline(&data, 0, &pal, 5).unwrap();
    assert_eq!(
        row,
        vec![0x00FF + (5 << 16), 0xF000 + (7 << 16), 0xF000 + (7 << 16), 0, 0]
    );
}

#[test]
fn scanline_repeat_and_offset_start() {
    let mut pal = vec![0u16; 256];
    pal[9] = 0x0001;
    let data = [0xFF, 0xFF, 0x83, 9];
    let row = decode_scanline(&data, 2, &pal, 3).unwrap();
    assert_eq!(row, vec![0x1F0001; 3]);
}

#[test]
fn scanline_errors() {
    let pal = vec![0u16; 256];
    assert_eq!(decode_scanline(&[0xC3], 0, &pal, 2).err(), Some(DecodeError::Overrun));
    assert_eq!(decode_scanline(&[0x42, 1], 0, &pal, 2).err(), Some(DecodeError::UnexpectedEof));
    assert_eq!(decode_scanline(&[], 0, &pal, 1).err(), Some(DecodeError::UnexpectedEof));
    assert_eq!(decode_scanline(&[], 7, &pal, 0).unwrap(), Vec::<u32>::new());
}

#[test]
fn end_to_end_red_pixels() {
    let (h, frames, images) = get_images(&red_sprite()).unwrap();
    assert_eq!(h.direction, 1);
    assert_eq!(h.frame_count, 1);
    assert_eq!(frames.len(), 1);
    let img = &images[0].image;
    assert_eq!((img.width(), img.height()), (2, 1));
    assert_eq!(img.get_pixel(0, 0).0, [0xF8, 0x00, 0x00, 0xF8]);
    assert_eq!(img.get_pixel(1, 0).0, [0xF8, 0x00, 0x00, 0xF8]);
}

#[test]
fn end_to_end_stream_as_tabled() {
    // 0x80 is REPEAT with count 0: it reads its index byte and writes nothing,
    // then 0x00 ends the row; 0x7C00 unpacks by the 5-6-5 formula.
    let (_, _, images) = get_images(&one_row_sprite(0x7C00, vec![0x41, 0x00, 0x80, 0x01, 0x00])).unwrap();
    let img = &images[0].image;
    assert_eq!(img.get_pixel(0, 0).0, [0x78, 0x80, 0x00, 0xF8]);
    assert_eq!(img.get_pixel(1, 0).0, [0, 0, 0, 0]);
}

#[test]
fn decoding_twice_gives_the_same() {
    let data = red_sprite();
    let a = get_images(&data).unwrap();
    let b = get_images(&data).unwrap();
    assert_eq!(a.0, b.0);
    assert_eq!(a.1[0].line_offsets, b.1[0].line_offsets);
    assert_eq!(a.2[0].image.as_raw(), b.2[0].image.as_raw());
    let ar = archive(&[(1, red_sprite())]);
    assert_eq!(decode(&ar).unwrap(), decode(&ar).unwrap());
}

#[test]
fn compositor_channels() {
    let px = vec![0xF800 + (0x1F << 16), 0xFFFF + (0x1F << 16), 0x07E0, 0x001F + (1 << 16)];
    let bytes = rgba_bytes(&px);
    assert_eq!(
        bytes,
        vec![0xF8, 0, 0, 0xF8, 0xF8, 0xFC, 0xF8, 0xF8, 0, 0xFC, 0, 0, 0, 0, 0xF8, 8]
    );
    let img = to_image(px, 2, 2);
    assert_eq!((img.image.width(), img.image.height()), (2, 2));
    assert_eq!(img.image.as_raw().len(), 16);
    assert_eq!(img.image.get_pixel(1, 1).0, [0, 0, 0xF8, 8]);
    assert_eq!(rgba_bytes(&vec![0x7C00 + (0x1F << 16)]), vec![0x78, 0x80, 0, 0xF8]);
}

#[test]
fn pack_and_readers() {
    assert_eq!(pack(0x7C00, 0x1F), 0x1F7C00);
    let data = [1u8, 2, 3, 4, 5];
    let mut pos = 0usize;
    assert_eq!(read_u8(&data, &mut pos), Ok(1));
    assert_eq!(read_u16(&data, &mut pos), Ok(0x0302));
    assert_eq!(pos, 3);
    assert_eq!(read_u32(&data, &mut pos), Err(DecodeError::UnexpectedEof));
    assert_eq!(pos, 3);
    let mut p2 = 1usize;
    assert_eq!(read_u32(&data, &mut p2), Ok(0x05040302));
    let mut p3 = 2usize;
    assert_eq!(read_bytes(&data, &mut p3, 3), Ok(vec![3, 4, 5]));
    assert_eq!(read_bytes(&data, &mut p3, 1), Err(DecodeError::UnexpectedEof));
}

#[test]
fn table_scan_leaves_kinds_unknown_then_sniffer_sets_them() {
    let data = archive(&[(1, red_sprite()), (2, vec![0x42, 0x4D, 0, 0, 0, 0, 0, 0])]);
    let table_offset = u32::from_le_bytes([data[8], data[9], data[10], data[11]]);
    let mut files = get_filelist(2, &data, table_offset);
    assert_eq!(files.len(), 2);
    assert_eq!(lookup(&files, 1).unwrap().file_type, FileType::Unknown(0));
    assert_eq!(lookup(&files, 2).unwrap().file_type, FileType::Unknown(0));
    assert_eq!(lookup(&files, 2).unwrap().offset, 12 + red_sprite().len() as u32);
    set_filetypes(&mut files, &data, 2, table_offset);
    assert_eq!(lookup(&files, 1).unwrap().file_type, FileType::WAS(1));
    assert_eq!(lookup(&files, 2).unwrap().file_type, FileType::BMP(6));
    assert_eq!(files, decode(&data).unwrap());
}
