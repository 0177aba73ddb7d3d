use vstd::prelude::*;
use vstd::slice::slice_subrange;
use std::collections::HashMap;

use crate::error::Error;
use crate::tact::btle::{decode_blte, spec_decode};
use crate::tact::common::CKey;

verus! {

broadcast use vstd::std_specs::hash::group_hash_axioms;

// The root file, once its container is decoded, is a concatenation of
// self-terminating blocks. Each block declares an entry count and two flag
// words, then two same-length parallel tables: 32-bit id deltas, and
// fixed-size entries (a 16-byte content key and a 64-bit name hash). All
// multi-byte fields are little-endian. Ids are rebuilt by a running counter:
// add the delta, record the entry, then add one more for the position
// consumed. A block that no longer parses ends the walk; everything before it
// stands.

/// One entry of the root file: the content key an id resolves to, and the
/// hash of the file's name.
#[derive(Clone, Copy, Debug)]
pub struct RootFileEntry {
    pub ckey: CKey,
    pub name_hash: u64,
}

impl View for RootFileEntry {
    type V = (Seq<u8>, u64);

    open spec fn view(&self) -> (Seq<u8>, u64) {
        (self.ckey@, self.name_hash)
    }
}

/// The root index: numeric file identifier to root entry, read-only once
/// built.
pub struct RootFile {
    pub file_id_to_entry: HashMap<u32, RootFileEntry>,
}

impl View for RootFile {
    type V = Map<u32, (Seq<u8>, u64)>;

    open spec fn view(&self) -> Map<u32, (Seq<u8>, u64)> {
        self.file_id_to_entry@.map_values(|e: RootFileEntry| e@)
    }
}

/// The little-endian value of the four bytes of `s` at `i`.
pub open spec fn le32(s: Seq<u8>, i: int) -> int
    recommends
        0 <= i,
        i + 4 <= s.len(),
{
    s[i] + s[i + 1] * 0x100 + s[i + 2] * 0x10000 + s[i + 3] * 0x1000000
}

/// The little-endian value of the eight bytes of `s` at `i`.
pub open spec fn le64(s: Seq<u8>, i: int) -> int
    recommends
        0 <= i,
        i + 8 <= s.len(),
{
    le32(s, i) + le32(s, i + 4) * 0x100000000
}

/// 32-bit wrapping addition: how the running file id absorbs a delta.
pub open spec fn add32(a: u32, b: u32) -> u32 {
    ((a + b) % 0x100000000) as u32
}

/// One block parsed from the head of `s`: the delta table, the entry table,
/// and how many bytes the block occupies. Nothing if fewer bytes than the
/// block declares are available.
pub open spec fn spec_block(s: Seq<u8>) -> Option<((Seq<u32>, Seq<(Seq<u8>, u64)>), int)> {
    if s.len() < 12 {
        Option::None
    } else {
        let n = le32(s, 0);
        if s.len() < 12 + 28 * n {
            Option::None
        } else {
            let deltas = Seq::new(n as nat, |j: int| le32(s, 12 + 4 * j) as u32);
            let entries = Seq::new(
                n as nat,
                |j: int|
                    (
                        s.subrange(12 + 4 * n + 24 * j, 12 + 4 * n + 24 * j + 16),
                        le64(s, 12 + 4 * n + 24 * j + 16) as u64,
                    ),
            );
            Option::Some(((deltas, entries), 12 + 28 * n))
        }
    }
}

/// Replays one block's parallel tables into the mapping, from table position
/// `j` with running id `id`: add the delta, record the entry (later
/// insertions for the same id win), step the id by one.
pub open spec fn spec_insert_entries(
    m: Map<u32, (Seq<u8>, u64)>,
    deltas: Seq<u32>,
    entries: Seq<(Seq<u8>, u64)>,
    j: int,
    id: u32,
) -> Map<u32, (Seq<u8>, u64)>
    decreases deltas.len() - j,
{
    if j < 0 || j >= deltas.len() || deltas.len() != entries.len() {
        m
    } else {
        let nid = add32(id, deltas[j]);
        spec_insert_entries(m.insert(nid, entries[j]), deltas, entries, j + 1, add32(nid, 1))
    }
}

/// Replays every block of `s` into the mapping, block by block, stopping at
/// the first block that fails to parse.
pub open spec fn spec_root_fold(m: Map<u32, (Seq<u8>, u64)>, s: Seq<u8>) -> Map<
    u32,
    (Seq<u8>, u64),
>
    decreases s.len(),
{
    match spec_block(s) {
        Option::None => m,
        Option::Some((b, consumed)) => spec_root_fold(
            spec_insert_entries(m, b.0, b.1, 0, 0u32),
            s.skip(consumed),
        ),
    }
}

/// The mapping the whole decoded root buffer denotes.
pub open spec fn spec_root_map(s: Seq<u8>) -> Map<u32, (Seq<u8>, u64)> {
    spec_root_fold(Map::empty(), s)
}

/// Reads the little-endian 32-bit field of `data` at `pos`.
fn read_le32(data: &[u8], pos: usize) -> (r: u32)
    requires
        pos + 4 <= data@.len(),
    ensures
        r == le32(data@, pos as int),
{
    (data[pos] as u32) + (data[pos + 1] as u32) * 0x100 + (data[pos + 2] as u32) * 0x10000 + (data[
        pos + 3] as u32) * 0x1000000
}

/// Reads the little-endian 64-bit field of `data` at `pos`.
fn read_le64(data: &[u8], pos: usize) -> (r: u64)
    requires
        pos + 8 <= data@.len(),
    ensures
        r == le64(data@, pos as int),
{
    let _len: usize = data.len();
    (read_le32(data, pos) as u64) + (read_le32(data, pos + 4) as u64) * 0x100000000
}

impl RootFile {
    /// Parses the root file: unwraps the container, then replays each block's
    /// delta and entry tables into the id mapping. A block that fails to
    /// parse ends the walk; the blocks before it are kept.
    #[verifier::rlimit(100)]
    pub fn parse(data: &[u8]) -> (r: Result<Self, Error>)
        ensures
            match (r, spec_decode(data@)) {
                (Result::Ok(root), Result::Ok(buf)) => root@ == spec_root_map(buf),
                (Result::Err(e1), Result::Err(e2)) => e1 == e2,
                _ => false,
            },
    {
        let decode = match decode_blte(data) {
            Ok(d) => d,
            Err(e) => {
                return Err(e);
            },
        };
        let buf: &[u8] = decode.as_slice();
        let len: usize = buf.len();
        let ghost goal = spec_root_map(buf@);
        let mut file_id_to_entry: HashMap<u32, RootFileEntry> = HashMap::new();
        let mut pos: usize = 0;
        proof {
            assert(buf@.skip(0) =~= buf@);
            assert(file_id_to_entry@.map_values(|e: RootFileEntry| e@) =~= Map::<
                u32,
                (Seq<u8>, u64),
            >::empty());
        }
        loop
            invariant
                pos <= len,
                len == buf@.len(),
                goal == spec_root_fold(
                    file_id_to_entry@.map_values(|e: RootFileEntry| e@),
                    buf@.skip(pos as int),
                ),
            ensures
                goal == file_id_to_entry@.map_values(|e: RootFileEntry| e@),
            decreases len - pos,
        {
            let ghost s = buf@.skip(pos as int);
            let ghost m_start = file_id_to_entry@.map_values(|e: RootFileEntry| e@);
            if len - pos < 12 {
                proof {
                    assert(spec_block(s) is None);
                }
                break ;
            }
            let n = read_le32(buf, pos);
            proof {
                assert(s[0] == buf@[pos as int] && s[1] == buf@[pos + 1] && s[2] == buf@[pos + 2]
                    && s[3] == buf@[pos + 3]);
            }
            if ((len - pos) as u64) < 12 + 28 * (n as u64) {
                proof {
                    assert(spec_block(s) is None);
                }
                break ;
            }
            proof {
                assert(spec_block(s) matches Option::Some((b, c)) && c == 12 + 28 * (n as int));
            }
            let ghost deltas = spec_block(s)->Some_0.0.0;
            let ghost entries = spec_block(s)->Some_0.0.1;
            let mut j: usize = 0;
            let mut id: u32 = 0;
            while j < n as usize
                invariant
                    j <= n as usize,
                    pos + 12 + 28 * (n as int) <= len,
                    len == buf@.len(),
                    s == buf@.skip(pos as int),
                    deltas.len() == n as int,
                    entries.len() == n as int,
                    deltas == spec_block(s)->Some_0.0.0,
                    entries == spec_block(s)->Some_0.0.1,
                    spec_block(s) matches Option::Some(_),
                    spec_insert_entries(m_start, deltas, entries, 0, 0u32) == spec_insert_entries(
                        file_id_to_entry@.map_values(|e: RootFileEntry| e@),
                        deltas,
                        entries,
                        j as int,
                        id,
                    ),
                decreases n as usize - j,
            {
                let delta = read_le32(buf, pos + 12 + 4 * j);
                let epos = pos + 12 + 4 * (n as usize) + 24 * j;
                let ckey = CKey::from_slice(slice_subrange(buf, epos, epos + 16));
                let name_hash = read_le64(buf, epos + 16);
                proof {
                    assert(le32(s, 12 + 4 * (j as int)) == le32(buf@, pos + 12 + 4 * (j as int)));
                    assert(deltas[j as int] == delta);
                    assert(buf@.subrange(epos as int, epos + 16) =~= s.subrange(
                        12 + 4 * (n as int) + 24 * (j as int),
                        12 + 4 * (n as int) + 24 * (j as int) + 16,
                    ));
                    assert(le64(s, 12 + 4 * (n as int) + 24 * (j as int) + 16) == le64(
                        buf@,
                        epos + 16,
                    ));
                    assert(entries[j as int] == (ckey@, name_hash));
                }
                let nid = ((id as u64 + delta as u64) % 0x100000000) as u32;
                proof {
                    assert(nid == add32(id, delta));
                }
                let ghost m_before = file_id_to_entry@.map_values(|e: RootFileEntry| e@);
                file_id_to_entry.insert(nid, RootFileEntry { ckey, name_hash });
                proof {
                    assert(file_id_to_entry@.map_values(|e: RootFileEntry| e@) =~= m_before.insert(
                        nid,
                        (ckey@, name_hash),
                    ));
                }
                id = ((nid as u64 + 1) % 0x100000000) as u32;
                proof {
                    assert(id == add32(nid, 1));
                }
                j = j + 1;
            }
            proof {
                assert(spec_insert_entries(
                    file_id_to_entry@.map_values(|e: RootFileEntry| e@),
                    deltas,
                    entries,
                    j as int,
                    id,
                ) == file_id_to_entry@.map_values(|e: RootFileEntry| e@));
                assert(buf@.skip(pos + 12 + 28 * (n as int)) =~= s.skip(12 + 28 * (n as int)));
            }
            pos = pos + 12 + 28 * (n as usize);
        }
        Ok(RootFile { file_id_to_entry })
    }

    /// Law: a walk stops at the first block that fails to parse; nothing
    /// after the truncation point reaches the mapping.
    pub proof fn lemma_parse_stops(m: Map<u32, (Seq<u8>, u64)>, s: Seq<u8>)
        requires
            spec_block(s) is None,
        ensures
            spec_root_fold(m, s) == m,
    {
    }

    /// Returns the content key recorded for `file_id`, or nothing if that id
    /// was never inserted: a negative answer, never an error and never a
    /// default.
    pub fn get_ckey_for_file_id(&self, file_id: u32) -> (r: Option<&CKey>)
        ensures
            match r {
                Option::Some(c) => self@.contains_key(file_id) && c@ == self@[file_id].0,
                Option::None => !self@.contains_key(file_id),
            },
    {
        match self.file_id_to_entry.get(&file_id) {
            Some(e) => Some(&e.ckey),
            None => None,
        }
    }
}

/// The ids one block replay writes from table position `j` on, in order.
pub open spec fn spec_block_ids(deltas: Seq<u32>, j: int, id: u32) -> Seq<u32>
    decreases deltas.len() - j,
{
    if j < 0 || j >= deltas.len() {
        seq![]
    } else {
        let nid = add32(id, deltas[j]);
        seq![nid] + spec_block_ids(deltas, j + 1, add32(nid, 1))
    }
}

/// A block replay from position `j` writes one id per remaining table entry.
pub proof fn lemma_block_ids_len(deltas: Seq<u32>, j: int, id: u32)
    requires
        0 <= j <= deltas.len(),
    ensures
        spec_block_ids(deltas, j, id).len() == deltas.len() - j,
    decreases deltas.len() - j,
{
    if j < deltas.len() {
        let nid = add32(id, deltas[j]);
        lemma_block_ids_len(deltas, j + 1, add32(nid, 1));
    }
}

/// One block's replay writes exactly its ids: when those are pairwise
/// distinct and none was mapped before, the mapping grows by exactly the
/// block's entry count.
pub proof fn lemma_insert_entries_size(
    m: Map<u32, (Seq<u8>, u64)>,
    deltas: Seq<u32>,
    entries: Seq<(Seq<u8>, u64)>,
    j: int,
    id: u32,
)
    requires
        0 <= j <= deltas.len(),
        deltas.len() == entries.len(),
        m.dom().finite(),
        spec_block_ids(deltas, j, id).no_duplicates(),
        forall|x: u32| spec_block_ids(deltas, j, id).contains(x) ==> !m.dom().contains(x),
    ensures
        spec_insert_entries(m, deltas, entries, j, id).dom().finite(),
        spec_insert_entries(m, deltas, entries, j, id).dom().len() == m.dom().len() + (deltas.len()
            - j),
        forall|x: u32|
            spec_insert_entries(m, deltas, entries, j, id).dom().contains(x) <==> (
            m.dom().contains(x) || spec_block_ids(deltas, j, id).contains(x)),
    decreases deltas.len() - j,
{
    let ids = spec_block_ids(deltas, j, id);
    if j < deltas.len() {
        let nid = add32(id, deltas[j]);
        let rest = spec_block_ids(deltas, j + 1, add32(nid, 1));
        assert(ids == seq![nid] + rest);
        assert(ids[0] == nid);
        assert(ids.contains(nid));
        let m2 = m.insert(nid, entries[j]);
        assert(m2.dom() =~= m.dom().insert(nid));
        assert(!m.dom().contains(nid));
        assert(m2.dom().len() == m.dom().len() + 1);
        assert(rest.no_duplicates()) by {
            assert forall|p: int, q: int| 0 <= p < q < rest.len() implies rest[p] != rest[q] by {
                assert(ids[p + 1] == rest[p]);
                assert(ids[q + 1] == rest[q]);
            }
        }
        assert forall|x: u32| rest.contains(x) implies ids.contains(x) && x != nid by {
            let k = choose|k: int| 0 <= k < rest.len() && rest[k] == x;
            assert(ids[k + 1] == rest[k]);
            assert(ids.contains(x));
            if x == nid {
                assert(ids[0] == ids[k + 1]);
            }
        }
        lemma_insert_entries_size(m2, deltas, entries, j + 1, add32(nid, 1));
        let mrec = spec_insert_entries(m2, deltas, entries, j + 1, add32(nid, 1));
        assert forall|x: u32|
            spec_insert_entries(m, deltas, entries, j, id).dom().contains(x) <==> (
            m.dom().contains(x) || ids.contains(x)) by {
            assert(spec_insert_entries(m, deltas, entries, j, id) == mrec);
            assert(mrec.dom().contains(x) <==> (m2.dom().contains(x) || rest.contains(x)));
            if ids.contains(x) && x != nid {
                let k = choose|k: int| 0 <= k < ids.len() && ids[k] == x;
                assert(k != 0);
                assert(rest[k - 1] == ids[k]);
                assert(rest.contains(x));
            }
        }
    }
}

/// The ids the whole walk writes, block by block, up to the first block that
/// fails to parse.
pub open spec fn spec_fold_ids(s: Seq<u8>) -> Seq<u32>
    decreases s.len(),
{
    match spec_block(s) {
        Option::None => seq![],
        Option::Some((b, c)) => spec_block_ids(b.0, 0, 0u32) + spec_fold_ids(s.skip(c)),
    }
}

/// Law: the walk keeps every block before the truncation point and nothing
/// after it, and when the ids written are pairwise distinct and all new, the
/// mapping grows by exactly the sum of the parsed blocks' declared entry
/// counts.
pub proof fn lemma_root_fold_size(m: Map<u32, (Seq<u8>, u64)>, s: Seq<u8>)
    requires
        m.dom().finite(),
        spec_fold_ids(s).no_duplicates(),
        forall|x: u32| spec_fold_ids(s).contains(x) ==> !m.dom().contains(x),
    ensures
        spec_root_fold(m, s).dom().finite(),
        spec_root_fold(m, s).dom().len() == m.dom().len() + spec_fold_ids(s).len(),
    decreases s.len(),
{
    let all = spec_fold_ids(s);
    match spec_block(s) {
        Option::None => {},
        Option::Some((b, c)) => {
            let bids = spec_block_ids(b.0, 0, 0u32);
            let rest = spec_fold_ids(s.skip(c));
            assert(all == bids + rest);
            assert(bids.no_duplicates()) by {
                assert forall|p: int, q: int| 0 <= p < q < bids.len() implies bids[p] != bids[q] by {
                    assert(all[p] == bids[p]);
                    assert(all[q] == bids[q]);
                }
            }
            assert forall|x: u32| bids.contains(x) implies all.contains(x) by {
                let k = choose|k: int| 0 <= k < bids.len() && bids[k] == x;
                assert(all[k] == bids[k]);
            }
            lemma_block_ids_len(b.0, 0, 0u32);
            lemma_insert_entries_size(m, b.0, b.1, 0, 0u32);
            let m2 = spec_insert_entries(m, b.0, b.1, 0, 0u32);
            assert(rest.no_duplicates()) by {
                assert forall|p: int, q: int| 0 <= p < q < rest.len() implies rest[p] != rest[q] by {
                    assert(all[bids.len() + p] == rest[p]);
                    assert(all[bids.len() + q] == rest[q]);
                }
            }
            assert forall|x: u32| rest.contains(x) implies !m2.dom().contains(x) by {
                let k = choose|k: int| 0 <= k < rest.len() && rest[k] == x;
                assert(all[bids.len() + k] == rest[k]);
                assert(all.contains(x));
                if bids.contains(x) {
                    let k2 = choose|k2: int| 0 <= k2 < bids.len() && bids[k2] == x;
                    assert(all[k2] == bids[k2]);
                    assert(all[k2] == all[bids.len() + k]);
                }
            }
            lemma_root_fold_size(m2, s.skip(c));
        },
    }
}

} // verus!
