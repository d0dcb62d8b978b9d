//! Parsing and validation of the vendor trailer that panorama JPEG files
//! carry after the end-of-image marker.
//!
//! The format anchors everything at the end of the file: the last eight bytes
//! are a footer holding the trailer's length and the tag `"SEFT"`; the
//! trailer's own header, tagged `"SEFH"`, sits `8 + trailer_length` bytes
//! before the end and declares a version and an entry count; each entry's
//! descriptor records a type and a backward-relative offset to its data.
//! Resolving every entry and taking the least resolved offset yields the
//! length of the genuine JPEG payload.

use vstd::prelude::*;

use crate::bytes::le16_at;
use crate::bytes::le32_at;
use crate::bytes::read_le_u16;
use crate::bytes::read_le_u32;

verus! {

/// Classified failures of trailer parsing.
#[derive(Debug, Clone, Copy, PartialEq, Eq, Structural)]
pub enum SefError {
    /// A magic tag is missing: the file is not a vendor panorama.
    NotPanorama,
    /// The header's version is outside the supported set.
    UnsupportedVersion(u32),
    /// An entry's target records a different type (first) than the entry's
    /// descriptor declares (second).
    TypeMismatch(u16, u16),
}

/// The last four bytes spell the footer tag, ASCII `"SEFT"`.
pub open spec fn footer_magic_ok(d: Seq<u8>) -> bool
    recommends
        d.len() >= 8,
{
    &&& d[d.len() - 4] == 83
    &&& d[d.len() - 3] == 69
    &&& d[d.len() - 2] == 70
    &&& d[d.len() - 1] == 84
}

/// The trailer length declared in the footer's first four bytes.
pub open spec fn trailer_length(d: Seq<u8>) -> u32
    recommends
        d.len() >= 8,
{
    le32_at(d, d.len() - 8)
}

/// Position of the trailer header: `8 + trailer_length` bytes before the end.
pub open spec fn header_pos(d: Seq<u8>) -> int {
    d.len() - 8 - trailer_length(d)
}

/// The four bytes at the header position spell the header tag, ASCII `"SEFH"`.
pub open spec fn header_magic_ok(d: Seq<u8>) -> bool {
    &&& d[header_pos(d)] == 83
    &&& d[header_pos(d) + 1] == 69
    &&& d[header_pos(d) + 2] == 70
    &&& d[header_pos(d) + 3] == 72
}

/// The version declared in the trailer header.
pub open spec fn version_of(d: Seq<u8>) -> u32 {
    le32_at(d, header_pos(d) + 4)
}

/// The entry count declared in the trailer header.
pub open spec fn entry_count_of(d: Seq<u8>) -> u32 {
    le32_at(d, header_pos(d) + 8)
}

/// The versions this parser understands.
pub open spec fn version_supported(v: u32) -> bool {
    v == 101 || v == 103 || v == 105 || v == 106
}

/// The eight footer bytes exist.
pub open spec fn footer_readable(d: Seq<u8>) -> bool {
    d.len() >= 8
}

/// The twelve header bytes declared by the footer lie inside the file.
pub open spec fn header_readable(d: Seq<u8>) -> bool {
    &&& trailer_length(d) >= 4
    &&& 8 + trailer_length(d) <= d.len()
}

/// Reads the footer and the trailer header, validates the magic tags and the
/// version, and returns the declared entry count.
pub fn read_entries_count(data: &Vec<u8>, force: bool) -> (r: Result<u32, SefError>)
    requires
        footer_readable(data@),
        footer_magic_ok(data@) ==> header_readable(data@),
    ensures
        r == Err::<u32, SefError>(SefError::NotPanorama) <==> !(footer_magic_ok(data@)
            && header_magic_ok(data@)),
        footer_magic_ok(data@) && header_magic_ok(data@) && !force && !version_supported(
            version_of(data@),
        ) ==> r == Err::<u32, SefError>(SefError::UnsupportedVersion(version_of(data@))),
        footer_magic_ok(data@) && header_magic_ok(data@) && (force || version_supported(
            version_of(data@),
        )) ==> r == Ok::<u32, SefError>(entry_count_of(data@)),
{
    let n = data.len();
    if !(data[n - 4] == 83 && data[n - 3] == 69 && data[n - 2] == 70 && data[n - 1] == 84) {
        return Err(SefError::NotPanorama);
    }
    let tl = read_le_u32(data, n - 8);
    let hp = n - 8 - tl as usize;
    if !(data[hp] == 83 && data[hp + 1] == 69 && data[hp + 2] == 70 && data[hp + 3] == 72) {
        return Err(SefError::NotPanorama);
    }
    let version = read_le_u32(data, hp + 4);
    if !force && version != 101 && version != 103 && version != 105 && version != 106 {
        return Err(SefError::UnsupportedVersion(version));
    }
    Ok(read_le_u32(data, hp + 8))
}

/// Total length of the footer region: the footer's 8 bytes, the header's 12
/// bytes, and 12 bytes per entry descriptor.
pub open spec fn footer_region_len(count: u32) -> int {
    20 + count * 12
}

/// Position of entry `n`'s 12-byte descriptor.
pub open spec fn descriptor_pos(d: Seq<u8>, n: u32, count: u32) -> int {
    d.len() - footer_region_len(count) + 12 + n * 12
}

/// The type declared in entry `n`'s descriptor (descriptor bytes 2 and 3).
pub open spec fn entry_type(d: Seq<u8>, n: u32, count: u32) -> u16 {
    le16_at(d, descriptor_pos(d, n, count) + 2)
}

/// The backward-relative data offset in entry `n`'s descriptor (descriptor
/// bytes 4 through 7), measured from the start of the footer region.
pub open spec fn entry_data_offset(d: Seq<u8>, n: u32, count: u32) -> u32 {
    le32_at(d, descriptor_pos(d, n, count) + 4)
}

/// Distance from the end of the file to entry `n`'s data.
pub open spec fn offset_from_end(d: Seq<u8>, n: u32, count: u32) -> int {
    footer_region_len(count) + entry_data_offset(d, n, count)
}

/// The type recorded at entry `n`'s target (bytes 2 and 3 of the four bytes
/// stored where the entry's data begins).
pub open spec fn target_type(d: Seq<u8>, n: u32, count: u32) -> u16 {
    le16_at(d, d.len() - offset_from_end(d, n, count) + 2)
}

/// The absolute file offset at which entry `n`'s data begins.
pub open spec fn resolved_offset(d: Seq<u8>, n: u32, count: u32) -> int {
    d.len() - offset_from_end(d, n, count)
}

/// Entry `n` is internally consistent: the type recorded at its target
/// agrees with the type its descriptor declares.
pub open spec fn entry_consistent(d: Seq<u8>, n: u32, count: u32) -> bool {
    target_type(d, n, count) == entry_type(d, n, count)
}

/// Every entry is internally consistent.
pub open spec fn all_entries_consistent(d: Seq<u8>, count: u32) -> bool {
    forall|i: u32| i < count ==> entry_consistent(d, i, count)
}

/// Every descriptor and every entry target lies inside the file.
pub open spec fn entries_readable(d: Seq<u8>, count: u32) -> bool {
    &&& footer_region_len(count) <= d.len()
    &&& forall|i: u32| i < count ==> offset_from_end(d, i, count) <= d.len()
}

/// Reads entry `n`'s descriptor, cross-checks the declared type against the
/// type recorded at the entry's target, and resolves the absolute offset at
/// which the entry's data begins.
pub fn read_entry_offset(data: &Vec<u8>, n: u32, count: u32, force: bool) -> (r: Result<
    usize,
    SefError,
>)
    requires
        n < count,
        footer_region_len(count) <= data@.len(),
        offset_from_end(data@, n, count) <= data@.len(),
    ensures
        r is Ok <==> force || entry_consistent(data@, n, count),
        r is Ok ==> r == Ok::<usize, SefError>(resolved_offset(data@, n, count) as usize),
        r is Err ==> r == Err::<usize, SefError>(
            SefError::TypeMismatch(target_type(data@, n, count), entry_type(data@, n, count)),
        ),
{
    let len = data.len();
    let frl: usize = 20 + count as usize * 12;
    let dpos = len - frl + 12 + n as usize * 12;
    let etype = read_le_u16(data, dpos + 2);
    let doff = read_le_u32(data, dpos + 4);
    let ofe = frl + doff as usize;
    let tpos = len - ofe;
    let dtype = read_le_u16(data, tpos + 2);
    if !force && dtype != etype {
        return Err(SefError::TypeMismatch(dtype, etype));
    }
    Ok(tpos)
}

/// The least resolved offset among entries `0 .. k`, starting from the file
/// length (which is the answer when there are no entries).
pub open spec fn min_offset_upto(d: Seq<u8>, count: u32, k: int) -> int
    decreases k,
{
    if k <= 0 {
        d.len() as int
    } else if resolved_offset(d, (k - 1) as u32, count) < min_offset_upto(d, count, k - 1) {
        resolved_offset(d, (k - 1) as u32, count)
    } else {
        min_offset_upto(d, count, k - 1)
    }
}

/// The truncation point: the least resolved offset over all entries.
pub open spec fn min_offset(d: Seq<u8>, count: u32) -> int {
    min_offset_upto(d, count, count as int)
}

/// The least entry index at or after `k` that is inconsistent (`count` when
/// all of them are consistent).
pub open spec fn first_inconsistent_from(d: Seq<u8>, count: u32, k: u32) -> u32
    recommends
        k <= count,
    decreases count - k,
{
    if k >= count {
        count
    } else if !entry_consistent(d, k, count) {
        k
    } else {
        first_inconsistent_from(d, count, (k + 1) as u32)
    }
}

/// The least inconsistent entry index (`count` when all are consistent).
pub open spec fn first_inconsistent(d: Seq<u8>, count: u32) -> u32 {
    first_inconsistent_from(d, count, 0)
}

proof fn lemma_first_inconsistent_from(d: Seq<u8>, count: u32, k: u32, i: u32)
    requires
        k <= i < count,
        !entry_consistent(d, i, count),
        forall|j: u32| k <= j < i ==> entry_consistent(d, j, count),
    ensures
        first_inconsistent_from(d, count, k) == i,
    decreases i - k,
{
    if k < i {
        lemma_first_inconsistent_from(d, count, (k + 1) as u32, i);
    }
}

proof fn lemma_first_inconsistent_is(d: Seq<u8>, count: u32, i: u32)
    requires
        i < count,
        !entry_consistent(d, i, count),
        forall|j: u32| j < i ==> entry_consistent(d, j, count),
    ensures
        first_inconsistent(d, count) == i,
{
    lemma_first_inconsistent_from(d, count, 0, i);
}

proof fn lemma_min_offset_upto_is_least(d: Seq<u8>, count: u32, k: int)
    requires
        0 < k <= count,
    ensures
        forall|i: u32| i < k ==> min_offset_upto(d, count, k) <= resolved_offset(d, i, count),
        exists|i: u32| i < k && min_offset_upto(d, count, k) == resolved_offset(d, i, count),
        min_offset_upto(d, count, k) < d.len(),
    decreases k,
{
    assert(resolved_offset(d, (k - 1) as u32, count) < d.len());
    if k > 1 {
        lemma_min_offset_upto_is_least(d, count, k - 1);
        if resolved_offset(d, (k - 1) as u32, count) < min_offset_upto(d, count, k - 1) {
            assert(min_offset_upto(d, count, k) == resolved_offset(d, (k - 1) as u32, count));
        } else {
            let j = choose|j: u32|
                j < k - 1 && min_offset_upto(d, count, k - 1) == resolved_offset(d, j, count);
            assert(min_offset_upto(d, count, k) == resolved_offset(d, j, count));
        }
    }
}

/// The resolved minimum over `count > 0` entries is the least of the
/// entries' resolved offsets: it is no larger than any of them and it is
/// attained by one of them. It also lies strictly before the end of the
/// file, since every entry's data is separated from the end by at least the
/// footer region itself.
pub proof fn lemma_min_offset_is_least(d: Seq<u8>, count: u32)
    requires
        count > 0,
    ensures
        forall|i: u32| i < count ==> min_offset(d, count) <= resolved_offset(d, i, count),
        exists|i: u32| i < count && min_offset(d, count) == resolved_offset(d, i, count),
        min_offset(d, count) < d.len(),
{
    lemma_min_offset_upto_is_least(d, count, count as int);
}

/// Resolves every entry and returns the least resolved offset; the file
/// length itself when there are no entries. Fails on the first entry whose
/// recorded type disagrees with its declared type, unless `force` is set.
#[verifier::loop_isolation(false)]
pub fn resolve_min_offset(data: &Vec<u8>, count: u32, force: bool) -> (r: Result<usize, SefError>)
    requires
        entries_readable(data@, count),
    ensures
        r is Ok <==> force || all_entries_consistent(data@, count),
        r is Ok ==> r == Ok::<usize, SefError>(min_offset(data@, count) as usize),
        count == 0 ==> r == Ok::<usize, SefError>(data@.len() as usize),
        r is Err ==> first_inconsistent(data@, count) < count && r == Err::<usize, SefError>(
            SefError::TypeMismatch(
                target_type(data@, first_inconsistent(data@, count), count),
                entry_type(data@, first_inconsistent(data@, count), count),
            ),
        ),
{
    let mut smallest = data.len();
    let mut i: u32 = 0;
    while i < count
        invariant
            i <= count,
            smallest == min_offset_upto(data@, count, i as int),
            force || forall|j: u32| j < i ==> entry_consistent(data@, j, count),
        decreases count - i,
    {
        match read_entry_offset(data, i, count, force) {
            Ok(offset) => {
                if offset < smallest {
                    smallest = offset;
                }
            },
            Err(e) => {
                proof {
                    lemma_first_inconsistent_is(data@, count, i);
                }
                return Err(e);
            },
        }
        i = i + 1;
    }
    Ok(smallest)
}

/// Every read that parsing performs on `d` stays inside the file: the
/// footer's eight bytes exist, the header declared by the footer lies inside
/// the file, and — when parsing gets as far as the entries — so do every
/// descriptor and every entry target.
pub open spec fn file_readable(d: Seq<u8>, force: bool) -> bool {
    &&& footer_readable(d)
    &&& (footer_magic_ok(d) ==> header_readable(d))
    &&& (footer_magic_ok(d) && header_magic_ok(d) && (force || version_supported(version_of(d)))
        ==> entries_readable(d, entry_count_of(d)))
}

/// Decides whether `data` can be parsed without any read falling outside the
/// file, so that parsing can be attempted on arbitrary bytes.
#[verifier::loop_isolation(false)]
pub fn is_readable(data: &Vec<u8>, force: bool) -> (r: bool)
    ensures
        r == file_readable(data@, force),
{
    let len = data.len();
    if len < 8 {
        return false;
    }
    if !(data[len - 4] == 83 && data[len - 3] == 69 && data[len - 2] == 70 && data[len - 1] == 84) {
        return true;
    }
    let tl = read_le_u32(data, len - 8);
    if tl < 4 || tl as usize > len - 8 {
        return false;
    }
    let hp = len - 8 - tl as usize;
    if !(data[hp] == 83 && data[hp + 1] == 69 && data[hp + 2] == 70 && data[hp + 3] == 72) {
        return true;
    }
    let version = read_le_u32(data, hp + 4);
    if !force && version != 101 && version != 103 && version != 105 && version != 106 {
        return true;
    }
    let count = read_le_u32(data, hp + 8);
    if 20 + count as u64 * 12 > len as u64 {
        return false;
    }
    let frl: usize = 20 + count as usize * 12;
    let mut i: u32 = 0;
    while i < count
        invariant
            i <= count,
            forall|j: u32| j < i ==> offset_from_end(data@, j, count) <= len,
        decreases count - i,
    {
        let dpos = len - frl + 12 + i as usize * 12;
        let doff = read_le_u32(data, dpos + 4);
        if doff as u64 + frl as u64 > len as u64 {
            proof {
                assert(offset_from_end(data@, i, count) > data@.len());
                assert(!entries_readable(data@, count));
            }
            return false;
        }
        i = i + 1;
    }
    true
}

/// Parses the whole trailer of `data`: validates the footer, the header and
/// every entry, and returns the declared entry count together with the
/// truncation offset (the least resolved entry offset, or the file length
/// when there are no entries). With `force` set, an unsupported version and
/// mismatched entry types are tolerated; missing magic tags never are.
pub fn process_file(data: &Vec<u8>, force: bool) -> (r: Result<(u32, usize), SefError>)
    requires
        file_readable(data@, force),
    ensures
        r == Err::<(u32, usize), SefError>(SefError::NotPanorama) <==> !(footer_magic_ok(data@)
            && header_magic_ok(data@)),
        footer_magic_ok(data@) && header_magic_ok(data@) && !force && !version_supported(
            version_of(data@),
        ) ==> r == Err::<(u32, usize), SefError>(SefError::UnsupportedVersion(version_of(data@))),
        footer_magic_ok(data@) && header_magic_ok(data@) && (force || version_supported(
            version_of(data@),
        )) && (force || all_entries_consistent(data@, entry_count_of(data@))) ==> r == Ok::<
            (u32, usize),
            SefError,
        >((entry_count_of(data@), min_offset(data@, entry_count_of(data@)) as usize)),
        footer_magic_ok(data@) && header_magic_ok(data@) && (force || version_supported(
            version_of(data@),
        )) && !force && !all_entries_consistent(data@, entry_count_of(data@)) ==> r == Err::<
            (u32, usize),
            SefError,
        >(
            SefError::TypeMismatch(
                target_type(data@, first_inconsistent(data@, entry_count_of(data@)), entry_count_of(data@)),
                entry_type(data@, first_inconsistent(data@, entry_count_of(data@)), entry_count_of(data@)),
            ),
        ),
        force && footer_magic_ok(data@) && header_magic_ok(data@) ==> r is Ok,
{
    let count = match read_entries_count(data, force) {
        Ok(c) => c,
        Err(e) => {
            return Err(e);
        },
    };
    match resolve_min_offset(data, count, force) {
        Ok(offset) => Ok((count, offset)),
        Err(e) => Err(e),
    }
}

} // verus!
