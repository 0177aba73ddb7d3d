use vstd::prelude::*;
use vstd::slice::slice_subrange;

use crate::error::Error;
use crate::tact::btle::be32;
use crate::tact::common::CKey;

verus! {

// An archive-index file is a sequence of fixed-width 28-byte records: a
// 16-byte content key, a big-endian 64-bit offset and a big-endian 32-bit
// length, addressing a byte range inside the one archive blob the index file
// belongs to. The archive's own identifier is the index file's name, not
// stored per record.

/// The big-endian value of the eight bytes of `s` at `i`.
pub open spec fn be64(s: Seq<u8>, i: int) -> int
    recommends
        0 <= i,
        i + 8 <= s.len(),
{
    be32(s, i) * 0x100000000 + be32(s, i + 4)
}

/// Where one content key's bytes live: which archive, and what byte range of
/// it.
#[derive(Clone, Copy, Debug)]
pub struct ArchiveEntry {
    /// The content key the range holds.
    pub key: CKey,
    /// The identifier of the archive blob the range lies in.
    pub archive_key: CKey,
    /// Byte offset of the range inside the archive.
    pub offset: u64,
    /// Byte length of the range.
    pub size: u32,
}

impl View for ArchiveEntry {
    type V = (Seq<u8>, Seq<u8>, int, int);

    open spec fn view(&self) -> (Seq<u8>, Seq<u8>, int, int) {
        (self.key@, self.archive_key@, self.offset as int, self.size as int)
    }
}

/// The record of `data` at record index `i`, addressed into the archive named
/// `archive_key`.
pub open spec fn spec_record_at(data: Seq<u8>, archive_key: Seq<u8>, i: int) -> (
    Seq<u8>,
    Seq<u8>,
    int,
    int,
) {
    (
        data.subrange(28 * i, 28 * i + 16),
        archive_key,
        be64(data, 28 * i + 16),
        be32(data, 28 * i + 24),
    )
}

/// One parsed archive-index file: the archive's identifier and its records in
/// file order.
pub struct ArchiveIndex {
    /// The identifier of the archive (and of the index file itself).
    pub key: CKey,
    /// The records, in the order the file holds them.
    pub entries: Vec<ArchiveEntry>,
}

/// Reads the big-endian 32-bit field of `data` at `pos`.
pub(crate) fn read_be32(data: &[u8], pos: usize) -> (r: u32)
    requires
        pos + 4 <= data@.len(),
    ensures
        r == be32(data@, pos as int),
{
    (data[pos] as u32) * 0x1000000 + (data[pos + 1] as u32) * 0x10000 + (data[pos + 2] as u32)
        * 0x100 + (data[pos + 3] as u32)
}

/// Reads the big-endian 64-bit field of `data` at `pos`.
pub(crate) fn read_be64(data: &[u8], pos: usize) -> (r: u64)
    requires
        pos + 8 <= data@.len(),
    ensures
        r == be64(data@, pos as int),
{
    let _len: usize = data.len();
    (read_be32(data, pos) as u64) * 0x100000000 + (read_be32(data, pos + 4) as u64)
}

impl ArchiveIndex {
    /// Parses one archive-index file with a fixed-stride scan. Trailing bytes
    /// that do not fill a whole record are a format error, never silently
    /// dropped.
    pub fn parse(archive_key: &CKey, data: &[u8]) -> (r: Result<ArchiveIndex, Error>)
        ensures
            match r {
                Result::Ok(idx) => {
                    &&& data@.len() % 28 == 0
                    &&& idx.key@ == archive_key@
                    &&& idx.entries@.len() == data@.len() / 28
                    &&& forall|i: int|
                        0 <= i < idx.entries@.len() ==> idx.entries@[i]@ == spec_record_at(
                            data@,
                            archive_key@,
                            i,
                        )
                },
                Result::Err(e) => e == Error::MalformedFormat && data@.len() % 28 != 0,
            },
    {
        let len: usize = data.len();
        if len % 28 != 0 {
            return Err(Error::MalformedFormat);
        }
        let count: usize = len / 28;
        let mut entries: Vec<ArchiveEntry> = Vec::new();
        let mut i: usize = 0;
        while i < count
            invariant
                i <= count,
                count == data@.len() / 28,
                data@.len() % 28 == 0,
                len == data@.len(),
                entries@.len() == i,
                forall|j: int|
                    0 <= j < i ==> entries@[j]@ == spec_record_at(data@, archive_key@, j),
            decreases count - i,
        {
            let base = 28 * i;
            let key = CKey::from_slice(slice_subrange(data, base, base + 16));
            let offset = read_be64(data, base + 16);
            let size = read_be32(data, base + 24);
            entries.push(
                ArchiveEntry { key, archive_key: *archive_key, offset, size },
            );
            i = i + 1;
        }
        Ok(ArchiveIndex { key: *archive_key, entries })
    }

    /// How many records the index holds.
    pub fn len(&self) -> (r: usize)
        ensures
            r == self.entries@.len(),
    {
        self.entries.len()
    }
}

} // verus!
