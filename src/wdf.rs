use vstd::prelude::*;

use std::collections::HashMap;

use crate::buffer_utils::{le32, read_u32};
use crate::error::DecodeError;

verus! {

broadcast use vstd::std_specs::hash::group_hash_axioms;

/// The kind of an archive entry's payload; each carries its legacy numeric tag.
#[derive(Debug, Clone, Copy, PartialEq, Eq, Structural)]
pub enum FileType {
    WAS(u8),
    JPG(u8),
    BMP(u8),
    TGA(u8),
    WAV(u8),
    MP3(u8),
    LUA(u8),
    Unknown(u8),
}

/// One record of the archive's entry table.
#[derive(Debug, Clone, Copy, PartialEq, Eq, Structural)]
pub struct FileInfo {
    /// The entry's id, unique within a well-formed archive.
    pub uid: u32,
    /// Start of the payload in the archive.
    pub offset: u32,
    /// Length of the payload.
    pub size: u32,
    /// Spare field, kept as read.
    pub space: u32,
    pub file_type: FileType,
}

/// The signature rules, in order; the first that matches wins. `hdw` is the
/// 16-bit value at the payload start, `sst` and `nst` the 32-bit values at
/// offsets 6 and 8, `dss` the 32-bit value six bytes before the end, `dsg` the
/// last three bytes and `sss` the 16-bit value at offset 4. The last rule
/// groups as `(dsg == [0x11, 0, 0] && sss == 0x1000) || sss == 0x0F00`.
pub open spec fn classify(hdw: u16, sst: u32, dss: u32, nst: u32, dsg: Seq<u8>, sss: u16) -> FileType {
    if hdw == 0x5053 {
        FileType::WAS(1)
    } else if hdw == 0x4d42 {
        FileType::BMP(6)
    } else if sst == 0x49464A10 {
        FileType::JPG(3)
    } else if dss == 0x454C4946 {
        FileType::TGA(4)
    } else if hdw == 0x4952 && nst == 0x45564157 {
        FileType::WAV(5)
    } else if hdw == 0x00FF {
        FileType::MP3(2)
    } else if (dsg[0] == 0x11 && dsg[1] == 0x00 && dsg[2] == 0x00 && sss == 0x1000) || sss == 0x0f00 {
        FileType::LUA(7)
    } else {
        FileType::Unknown(0)
    }
}

/// The byte at `i`, or zero where `i` lies outside the archive.
pub open spec fn byte_or_zero(d: Seq<u8>, i: int) -> int {
    if 0 <= i < d.len() {
        d[i] as int
    } else {
        0
    }
}

/// The little-endian 16-bit value at `i`, with bytes outside the archive read as zero.
pub open spec fn le16z(d: Seq<u8>, i: int) -> int {
    byte_or_zero(d, i) + 256 * byte_or_zero(d, i + 1)
}

/// The little-endian 32-bit value at `i`, with bytes outside the archive read as zero.
pub open spec fn le32z(d: Seq<u8>, i: int) -> int {
    byte_or_zero(d, i) + 256 * byte_or_zero(d, i + 1) + 65536 * byte_or_zero(d, i + 2)
        + 16777216 * byte_or_zero(d, i + 3)
}

/// The kind of the payload at `offset` of length `size`, judged from a few
/// bytes at its start and its end.
pub open spec fn sniff(d: Seq<u8>, offset: u32, size: u32) -> FileType {
    let o = offset as int;
    let e = o + size as int;
    classify(
        le16z(d, o) as u16,
        le32z(d, o + 6) as u32,
        le32z(d, e - 6) as u32,
        le32z(d, o + 8) as u32,
        seq![byte_or_zero(d, e - 3) as u8, byte_or_zero(d, e - 2) as u8, byte_or_zero(d, e - 1) as u8],
        le16z(d, o + 4) as u16,
    )
}

/// Record `i` of the table at `t` as the table scan reads it, of kind `Unknown(0)`.
pub open spec fn table_record(d: Seq<u8>, t: int, i: int) -> FileInfo {
    let p = t + 16 * i;
    FileInfo {
        uid: le32(d, p) as u32,
        offset: le32(d, p + 4) as u32,
        size: le32(d, p + 8) as u32,
        space: le32(d, p + 12) as u32,
        file_type: FileType::Unknown(0),
    }
}

/// `f` with the kind that the sniffer gives its payload.
pub open spec fn sniffed(d: Seq<u8>, f: FileInfo) -> FileInfo {
    FileInfo { file_type: sniff(d, f.offset, f.size), ..f }
}

/// Record `i` of the table at `t`, with the kind of its payload.
pub open spec fn record(d: Seq<u8>, t: int, i: int) -> FileInfo {
    sniffed(d, table_record(d, t, i))
}

/// The first `n` records of the table at `t` as the table scan reads them, by
/// id; a later record replaces an earlier one with the same id.
pub open spec fn table_map(d: Seq<u8>, t: int, n: int) -> Map<u32, FileInfo>
    decreases n,
{
    if n <= 0 {
        Map::empty()
    } else {
        let r = table_record(d, t, n - 1);
        table_map(d, t, n - 1).insert(r.uid, r)
    }
}

/// The first `n` records of the table at `t`, by id; a later record replaces
/// an earlier one with the same id.
pub open spec fn archive_map(d: Seq<u8>, t: int, n: int) -> Map<u32, FileInfo>
    decreases n,
{
    if n <= 0 {
        Map::empty()
    } else {
        let r = record(d, t, n - 1);
        archive_map(d, t, n - 1).insert(r.uid, r)
    }
}

/// The entry count of the archive header.
pub open spec fn entry_count(d: Seq<u8>) -> int {
    le32(d, 4)
}

/// The table offset of the archive header.
pub open spec fn table_offset(d: Seq<u8>) -> int {
    le32(d, 8)
}

/// What an archive decodes to.
pub open spec fn archive_spec(d: Seq<u8>) -> Result<Map<u32, FileInfo>, DecodeError> {
    if d.len() < 12 {
        Err(DecodeError::UnexpectedEof)
    } else if entry_count(d) > 0 && table_offset(d) + 16 * entry_count(d) > d.len() {
        Err(DecodeError::TableTooLarge)
    } else {
        Ok(archive_map(d, table_offset(d), entry_count(d)))
    }
}

fn peek_u8(data: &[u8], i: i64) -> (r: u8)
    ensures
        r as int == byte_or_zero(data@, i as int),
{
    if i < 0 || i as u64 >= data.len() as u64 {
        0
    } else {
        data[i as usize]
    }
}

fn peek_u16(data: &[u8], i: i64) -> (r: u16)
    requires
        i < i64::MAX,
    ensures
        r as int == le16z(data@, i as int),
{
    peek_u8(data, i) as u16 + peek_u8(data, i + 1) as u16 * 256
}

fn peek_u32(data: &[u8], i: i64) -> (r: u32)
    requires
        i < i64::MAX - 3,
    ensures
        r as int == le32z(data@, i as int),
{
    peek_u8(data, i) as u32 + peek_u8(data, i + 1) as u32 * 256 + peek_u8(data, i + 2) as u32
        * 65536 + peek_u8(data, i + 3) as u32 * 16777216
}

/// Sets the kind of `info` from the signature values read at its payload.
pub fn transfer_filetype(
    hdw: u16,
    info: &mut FileInfo,
    sst: u32,
    dss: u32,
    nst: u32,
    dsg: Vec<u8>,
    sss: u16,
)
    requires
        dsg@.len() == 3,
    ensures
        *final(info) == (FileInfo { file_type: classify(hdw, sst, dss, nst, dsg@, sss), ..*old(info) }),
{
    if hdw == 0x5053 {
        info.file_type = FileType::WAS(1);
    } else if hdw == 0x4d42 {
        info.file_type = FileType::BMP(6);
    } else if sst == 0x49464A10 {
        info.file_type = FileType::JPG(3);
    } else if dss == 0x454C4946 {
        info.file_type = FileType::TGA(4);
    } else if hdw == 0x4952 && nst == 0x45564157 {
        info.file_type = FileType::WAV(5);
    } else if hdw == 0x00FF {
        info.file_type = FileType::MP3(2);
    } else if (dsg[0] == 0x11 && dsg[1] == 0x00 && dsg[2] == 0x00 && sss == 0x1000) || sss == 0x0f00 {
        info.file_type = FileType::LUA(7);
    } else {
        info.file_type = FileType::Unknown(0);
    }
}

/// Reads the signature bytes of the payload of `info` and sets its kind.
/// Bytes outside the archive read as zero, so this never fails.
pub fn get_filetype(info: &mut FileInfo, data: &[u8])
    ensures
        *final(info) == (FileInfo {
            file_type: sniff(data@, old(info).offset, old(info).size),
            ..*old(info)
        }),
{
    let o: i64 = info.offset as i64;
    let e: i64 = o + info.size as i64;
    let hdw = peek_u16(data, o);
    let sst = peek_u32(data, o + 6);
    let nst = peek_u32(data, o + 8);
    let dss = peek_u32(data, e - 6);
    let dsg: Vec<u8> = vec![peek_u8(data, e - 3), peek_u8(data, e - 2), peek_u8(data, e - 1)];
    let sss = peek_u16(data, o + 4);
    assert(dsg@ =~= seq![
        byte_or_zero(data@, e - 3) as u8,
        byte_or_zero(data@, e - 2) as u8,
        byte_or_zero(data@, e - 1) as u8,
    ]);
    transfer_filetype(hdw, info, sst, dss, nst, dsg, sss);
}

/// Reads `file_num` records from the table at `table_offset` and maps them by
/// id, each of kind `Unknown(0)`; `set_filetypes` sniffs them afterwards.
pub fn get_filelist(file_num: u32, data: &[u8], table_offset: u32) -> (r: HashMap<u32, FileInfo>)
    requires
        file_num == 0 || table_offset + 16 * file_num <= data@.len(),
    ensures
        r@ == table_map(data@, table_offset as int, file_num as int),
{
    let mut file_list: HashMap<u32, FileInfo> = HashMap::new();
    let mut pos: usize = table_offset as usize;
    let mut i: u32 = 0;
    while i < file_num
        invariant
            file_num == 0 || table_offset + 16 * file_num <= data@.len(),
            i <= file_num,
            pos == table_offset + 16 * i,
            file_list@ == table_map(data@, table_offset as int, i as int),
        decreases file_num - i,
    {
        // The table lies within `data`, so none of these reads fails.
        let uid = match read_u32(data, &mut pos) {
            Ok(v) => v,
            Err(_) => 0,
        };
        let offset = match read_u32(data, &mut pos) {
            Ok(v) => v,
            Err(_) => 0,
        };
        let size = match read_u32(data, &mut pos) {
            Ok(v) => v,
            Err(_) => 0,
        };
        let space = match read_u32(data, &mut pos) {
            Ok(v) => v,
            Err(_) => 0,
        };
        let info = FileInfo { uid, offset, size, space, file_type: FileType::Unknown(0) };
        assert(info == table_record(data@, table_offset as int, i as int));
        file_list.insert(uid, info);
        i = i + 1;
    }
    file_list
}

/// The map after the sniffer has run holds the same ids as after the table scan,
/// each entry with the kind of its payload.
pub proof fn lemma_archive_map_sniffed(d: Seq<u8>, t: int, n: int)
    ensures
        archive_map(d, t, n).dom() == table_map(d, t, n).dom(),
        forall|k: u32|
            #[trigger] table_map(d, t, n).contains_key(k) ==> archive_map(d, t, n)[k] == sniffed(
                d,
                table_map(d, t, n)[k],
            ),
    decreases n,
{
    if n > 0 {
        lemma_archive_map_sniffed(d, t, n - 1);
        assert(archive_map(d, t, n).dom() =~= table_map(d, t, n).dom());
    }
}

/// The id of record `i` of the table at `t`.
pub open spec fn uid_at(d: Seq<u8>, t: int, i: int) -> u32 {
    le32(d, t + 16 * i) as u32
}

/// The scanned table holds exactly the ids of its first `n` records.
pub proof fn lemma_table_map_keys(d: Seq<u8>, t: int, n: int)
    ensures
        forall|k: u32|
            table_map(d, t, n).contains_key(k) <==> exists|i: int|
                0 <= i < n && #[trigger] uid_at(d, t, i) == k,
    decreases n,
{
    if n > 0 {
        lemma_table_map_keys(d, t, n - 1);
        assert forall|k: u32|
            (exists|i: int| 0 <= i < n && #[trigger] uid_at(d, t, i) == k) implies table_map(
            d,
            t,
            n,
        ).contains_key(k) by {
            let i = choose|i: int| 0 <= i < n && #[trigger] uid_at(d, t, i) == k;
            if i < n - 1 {
                assert(table_map(d, t, n - 1).contains_key(k));
            }
        }
        assert forall|k: u32| table_map(d, t, n).contains_key(k) implies exists|i: int|
            0 <= i < n && #[trigger] uid_at(d, t, i) == k by {
            if k == uid_at(d, t, n - 1) {
                assert(uid_at(d, t, n - 1) == k);
            } else {
                assert(table_map(d, t, n - 1).contains_key(k));
                let i = choose|i: int| 0 <= i < n - 1 && #[trigger] uid_at(d, t, i) == k;
                assert(uid_at(d, t, i) == k);
            }
        }
    }
}

/// Runs the sniffer over every entry of a freshly scanned table and sets its kind.
pub fn set_filetypes(
    file_list: &mut HashMap<u32, FileInfo>,
    data: &[u8],
    file_num: u32,
    table_offset: u32,
)
    requires
        file_num == 0 || table_offset + 16 * file_num <= data@.len(),
        old(file_list)@ == table_map(data@, table_offset as int, file_num as int),
    ensures
        final(file_list)@ == archive_map(data@, table_offset as int, file_num as int),
{
    let ghost d = data@;
    let ghost t = table_offset as int;
    let ghost tm = table_map(d, t, file_num as int);
    proof {
        lemma_table_map_keys(d, t, file_num as int);
    }
    let dl: usize = data.len();
    let mut i: u32 = 0;
    while i < file_num
        invariant
            file_num == 0 || table_offset + 16 * file_num <= d.len(),
            d == data@,
            dl == d.len(),
            t == table_offset,
            forall|j: int| 0 <= j < file_num ==> tm.contains_key(#[trigger] uid_at(d, t, j)),
            i <= file_num,
            file_list@.dom() == tm.dom(),
            forall|k: u32|
                #[trigger] tm.contains_key(k) ==> file_list@[k] == tm[k] || file_list@[k]
                    == sniffed(d, tm[k]),
            forall|j: int|
                0 <= j < i ==> file_list@[#[trigger] uid_at(d, t, j)] == sniffed(
                    d,
                    tm[uid_at(d, t, j)],
                ),
        decreases file_num - i,
    {
        // The table lies within `data`, so this read does not fail.
        let mut pos: usize = table_offset as usize + 16 * i as usize;
        let uid = match read_u32(data, &mut pos) {
            Ok(v) => v,
            Err(_) => 0,
        };
        assert(uid == uid_at(d, t, i as int));
        assert(tm.contains_key(uid));
        let mut info: FileInfo = match file_list.get(&uid) {
            Some(found) => *found,
            None => FileInfo { uid, offset: 0, size: 0, space: 0, file_type: FileType::Unknown(0) },
        };
        get_filetype(&mut info, data);
        assert(info == sniffed(d, tm[uid]));
        file_list.insert(uid, info);
        i = i + 1;
    }
    proof {
        lemma_archive_map_sniffed(d, t, file_num as int);
        assert forall|k: u32| #[trigger] tm.contains_key(k) implies file_list@[k] == sniffed(
            d,
            tm[k],
        ) by {
            let j = choose|j: int| 0 <= j < file_num && #[trigger] uid_at(d, t, j) == k;
        }
        assert(file_list@ =~= archive_map(d, t, file_num as int));
    }
}

/// Decodes the archive header and entry table into a map from id to entry:
/// the table scan first, then the sniffer over every entry.
pub fn decode(data: &[u8]) -> (r: Result<HashMap<u32, FileInfo>, DecodeError>)
    ensures
        match r {
            Ok(m) => archive_spec(data@) == Ok::<Map<u32, FileInfo>, DecodeError>(m@),
            Err(e) => archive_spec(data@) == Err::<Map<u32, FileInfo>, DecodeError>(e),
        },
{
    if data.len() < 12 {
        return Err(DecodeError::UnexpectedEof);
    }
    let mut pos: usize = 4;
    let file_num = read_u32(data, &mut pos)?;
    let offset = read_u32(data, &mut pos)?;
    if file_num > 0 && offset as u64 + 16 * file_num as u64 > data.len() as u64 {
        return Err(DecodeError::TableTooLarge);
    }
    let mut file_list = get_filelist(file_num, data, offset);
    set_filetypes(&mut file_list, data, file_num, offset);
    Ok(file_list)
}

/// The entry with id `uid`.
pub fn lookup(files: &HashMap<u32, FileInfo>, uid: u32) -> (r: Result<&FileInfo, DecodeError>)
    ensures
        match r {
            Ok(info) => files@.contains_key(uid) && *info == files@[uid],
            Err(e) => e == DecodeError::NotFound && !files@.contains_key(uid),
        },
{
    match files.get(&uid) {
        Some(info) => Ok(info),
        None => Err(DecodeError::NotFound),
    }
}

/// Whether the first `n` records of the table at `t` carry pairwise different ids.
pub open spec fn uids_distinct(d: Seq<u8>, t: int, n: int) -> bool {
    forall|i: int, j: int|
        0 <= i < j < n ==> #[trigger] record(d, t, i).uid != #[trigger] record(d, t, j).uid
}

/// The map of the first `n` records holds exactly their ids, each with the
/// last record that carries it.
#[verifier::rlimit(60)]
pub proof fn lemma_archive_map_keys(d: Seq<u8>, t: int, n: int)
    requires
        0 <= n,
    ensures
        archive_map(d, t, n).dom().finite(),
        forall|k: u32|
            archive_map(d, t, n).contains_key(k) <==> exists|i: int|
                0 <= i < n && #[trigger] record(d, t, i).uid == k,
        uids_distinct(d, t, n) ==> archive_map(d, t, n).dom().len() == n,
        uids_distinct(d, t, n) ==> forall|i: int|
            0 <= i < n ==> archive_map(d, t, n)[#[trigger] record(d, t, i).uid] == record(d, t, i),
    decreases n,
{
    if n > 0 {
        lemma_archive_map_keys(d, t, n - 1);
        let r = record(d, t, n - 1);
        let m = archive_map(d, t, n);
        assert forall|k: u32|
            (exists|i: int| 0 <= i < n && #[trigger] record(d, t, i).uid == k) implies m.contains_key(
            k,
        ) by {
            let i = choose|i: int| 0 <= i < n && #[trigger] record(d, t, i).uid == k;
            if i < n - 1 {
                assert(archive_map(d, t, n - 1).contains_key(k));
            }
        }
        if uids_distinct(d, t, n) {
            assert(uids_distinct(d, t, n - 1));
            assert(!archive_map(d, t, n - 1).contains_key(r.uid)) by {
                if archive_map(d, t, n - 1).contains_key(r.uid) {
                    let i = choose|i: int| 0 <= i < n - 1 && #[trigger] record(d, t, i).uid == r.uid;
                    assert(record(d, t, i).uid != record(d, t, n - 1).uid);
                }
            }
            assert forall|i: int| 0 <= i < n implies m[#[trigger] record(d, t, i).uid] == record(d, t, i) by {
                if i < n - 1 {
                    assert(record(d, t, i).uid != record(d, t, n - 1).uid);
                }
            }
        }
    }
}

/// An archive whose entry table holds `N` records with pairwise different ids
/// decodes to a map with exactly `N` keys, and the key of each record maps to
/// that record; every key of the map is the id of some record.
pub proof fn lemma_decode_entries(d: Seq<u8>)
    requires
        archive_spec(d) is Ok,
        uids_distinct(d, table_offset(d), entry_count(d)),
    ensures
        archive_spec(d) matches Ok(m) && m.dom().len() == entry_count(d) && (forall|i: int|
            0 <= i < entry_count(d) ==> m[#[trigger] record(d, table_offset(d), i).uid] == record(
                d,
                table_offset(d),
                i,
            )) && (forall|k: u32|
            m.contains_key(k) ==> exists|i: int|
                0 <= i < entry_count(d) && #[trigger] record(d, table_offset(d), i).uid == k),
{
    lemma_archive_map_keys(d, table_offset(d), entry_count(d));
}

} // verus!
