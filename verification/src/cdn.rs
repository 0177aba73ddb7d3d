use vstd::prelude::*;
use vstd::slice::slice_subrange;
use std::collections::HashMap;

use crate::error::Error;
use crate::tact::archive::{ArchiveEntry, ArchiveIndex};
use crate::tact::btle::{decode_blte, spec_decode};
use crate::tact::common::{key_u128, CKey};
use crate::tact::root::RootFile;

verus! {

broadcast use vstd::std_specs::hash::group_hash_axioms;

// The fetcher owns the root index, the parsed archive indices and a merged
// lookup table, plus an in-memory image of the local blob cache. It has no
// side effects of its own: resolution and decoding are answered here, while
// the I/O shell around the library performs network retrieval and disk
// persistence, handing every fetched blob back through `provide_blob`.

/// What one resolution step asks of the I/O shell.
#[derive(Debug)]
pub enum FetchOutcome {
    /// The decoded payload; nothing else to do.
    Data(Vec<u8>),
    /// The blob at this CDN path must be retrieved and handed back under this
    /// cache key before the fetch can finish.
    Need(Vec<u8>, CKey),
    /// The fetch failed; retrieving nothing more would change that.
    Fail(Error),
}

/// Records of `es` from position `j` on, replayed over the lookup table in
/// file order: a later record for the same key overwrites an earlier one.
pub open spec fn spec_merge_entries(
    m: Map<u128, ArchiveEntry>,
    es: Seq<ArchiveEntry>,
    j: int,
) -> Map<u128, ArchiveEntry>
    decreases es.len() - j,
{
    if j < 0 || j >= es.len() {
        m
    } else {
        spec_merge_entries(m.insert(key_u128(es[j].key@), es[j]), es, j + 1)
    }
}

/// Whole index files from position `i` on, merged over the lookup table in
/// the order they were given: an entry from a later file overwrites one from
/// an earlier file.
pub open spec fn spec_merge_indices(
    m: Map<u128, ArchiveEntry>,
    idxs: Seq<ArchiveIndex>,
    i: int,
) -> Map<u128, ArchiveEntry>
    decreases idxs.len() - i,
{
    if i < 0 || i >= idxs.len() {
        m
    } else {
        spec_merge_indices(spec_merge_entries(m, idxs[i].entries@, 0), idxs, i + 1)
    }
}

/// Resolution: file id to root entry to archive location, each miss a
/// legitimate not-found.
pub open spec fn spec_resolve(
    root: Map<u32, (Seq<u8>, u64)>,
    lookup: Map<u128, ArchiveEntry>,
    file_id: u32,
) -> Result<ArchiveEntry, Error> {
    if !root.contains_key(file_id) {
        Result::Err(Error::NotFound)
    } else if !lookup.contains_key(key_u128(root[file_id].0)) {
        Result::Err(Error::NotFound)
    } else {
        Result::Ok(lookup[key_u128(root[file_id].0)])
    }
}

/// What decoding an entry's byte range out of its (cached) archive blob
/// yields: the declared range must lie inside the blob, and the slice is a
/// container blob of its own.
pub open spec fn spec_fetch_ready(entry: ArchiveEntry, blob: Seq<u8>) -> Result<Seq<u8>, Error> {
    if entry.offset + entry.size > blob.len() {
        Result::Err(Error::MalformedFormat)
    } else {
        spec_decode(blob.subrange(entry.offset as int, entry.offset + entry.size))
    }
}

/// What a fetch answers once resolution found `entry`: nothing while the
/// archive blob is absent from the cache, otherwise the decoded range.
pub open spec fn spec_fetch_cached(entry: ArchiveEntry, cache: Map<u128, Seq<u8>>) -> Option<
    Result<Seq<u8>, Error>,
> {
    if cache.contains_key(key_u128(entry.archive_key@)) {
        Option::Some(spec_fetch_ready(entry, cache[key_u128(entry.archive_key@)]))
    } else {
        Option::None
    }
}

/// The sharded CDN path of a key: product, category, the first two hex
/// digits, the next two, then the full 32-digit hex name.
pub open spec fn spec_cdn_path(product: Seq<u8>, category: Seq<u8>, key: Seq<u8>) -> Seq<u8> {
    let h = CKey::spec_hex(key);
    product + seq![47u8] + category + seq![47u8] + h.take(2) + seq![47u8] + h.subrange(2, 4)
        + seq![47u8] + h
}

/// The category under which archive blobs are addressed, the ASCII bytes
/// "data".
pub open spec fn spec_data_category() -> Seq<u8> {
    seq![100u8, 97u8, 116u8, 97u8]
}

/// Builds the sharded CDN path of a key as ASCII bytes.
pub fn cdn_path(product: &[u8], category: &[u8], key: &CKey) -> (r: Vec<u8>)
    ensures
        r@ == spec_cdn_path(product@, category@, key@),
{
    let h = key.hex();
    let mut r: Vec<u8> = Vec::new();
    r.extend_from_slice(product);
    r.push(47);
    r.extend_from_slice(category);
    r.push(47);
    r.push(h[0]);
    r.push(h[1]);
    r.push(47);
    r.push(h[2]);
    r.push(h[3]);
    r.push(47);
    r.extend_from_slice(h.as_slice());
    proof {
        assert(h@.take(2) =~= seq![h@[0], h@[1]]);
        assert(h@.subrange(2, 4) =~= seq![h@[2], h@[3]]);
        assert(r@ =~= spec_cdn_path(product@, category@, key@));
    }
    r
}

/// The orchestrating fetch layer: immutable indices built at initialization,
/// and the cache image that fetches are answered from.
pub struct CDNFetcher {
    /// The root index: numeric file identifier to content key.
    pub root: RootFile,
    /// Every parsed archive-index file, in the order they were merged.
    pub archive_index: Vec<ArchiveIndex>,
    /// The product whose content tree is being resolved, as ASCII bytes.
    pub product: Vec<u8>,
    /// The merged lookup table: archive location by the numeric stand-in of
    /// the content key.
    pub lookup: HashMap<u128, ArchiveEntry>,
    /// The cache image: blob bytes by the numeric stand-in of their key.
    pub cache: HashMap<u128, Vec<u8>>,
}

impl CDNFetcher {
    /// The merged archive lookup table.
    pub open spec fn lookup_map(&self) -> Map<u128, ArchiveEntry> {
        self.lookup@
    }

    /// The cache image: blob bytes by the numeric stand-in of their key.
    pub open spec fn cache_map(&self) -> Map<u128, Seq<u8>> {
        self.cache@.map_values(|v: Vec<u8>| v@)
    }

    /// Assembles a fetcher from parsed parts: merges the archive indices, in
    /// order, into one lookup table, and starts with an empty cache.
    pub fn init_from_parts(
        root: RootFile,
        archive_index: Vec<ArchiveIndex>,
        product: Vec<u8>,
    ) -> (r: CDNFetcher)
        ensures
            r.root == root,
            r.archive_index@ == archive_index@,
            r.product@ == product@,
            r.lookup_map() == spec_merge_indices(
                Map::<u128, ArchiveEntry>::empty(),
                archive_index@,
                0,
            ),
            r.cache_map() == Map::<u128, Seq<u8>>::empty(),
    {
        let ghost goal = spec_merge_indices(Map::<u128, ArchiveEntry>::empty(), archive_index@, 0);
        let mut lookup: HashMap<u128, ArchiveEntry> = HashMap::new();
        let mut i: usize = 0;
        while i < archive_index.len()
            invariant
                i <= archive_index@.len(),
                goal == spec_merge_indices(lookup@, archive_index@, i as int),
            decreases archive_index@.len() - i,
        {
            let idx = &archive_index[i];
            let mut j: usize = 0;
            while j < idx.entries.len()
                invariant
                    j <= idx.entries@.len(),
                    idx == archive_index@[i as int],
                    i < archive_index@.len(),
                    goal == spec_merge_indices(
                        spec_merge_entries(lookup@, idx.entries@, j as int),
                        archive_index@,
                        i as int + 1,
                    ),
                decreases idx.entries@.len() - j,
            {
                let e = idx.entries[j];
                let k = e.key.id_u128();
                lookup.insert(k, e);
                j = j + 1;
            }
            i = i + 1;
        }
        let r = CDNFetcher { root, archive_index, product, lookup, cache: HashMap::new() };
        proof {
            assert(r.cache_map() =~= Map::<u128, Seq<u8>>::empty());
        }
        r
    }

    /// Looks a content key up in the merged archive lookup table. Nothing
    /// means the content is in no loaded archive index: a legitimate
    /// negative, never an error and never a default.
    pub fn lookup(&self, key: &CKey) -> (r: Option<&ArchiveEntry>)
        ensures
            match r {
                Option::Some(e) => self.lookup_map().contains_key(key_u128(key@)) && *e
                    == self.lookup_map()[key_u128(key@)],
                Option::None => !self.lookup_map().contains_key(key_u128(key@)),
            },
    {
        self.lookup.get(&key.id_u128())
    }

    /// Answers one fetch-by-id step from what is already at hand: resolves
    /// the id through both indices, then either decodes the cached archive
    /// range, or names the blob the I/O shell must retrieve first.
    pub fn poll_fetch_file_id(&self, file_id: u32) -> (r: FetchOutcome)
        ensures
            match r {
                FetchOutcome::Fail(e) => (spec_resolve(self.root@, self.lookup_map(), file_id)
                    matches Result::Err(e0) && e == e0) || (spec_resolve(
                    self.root@,
                    self.lookup_map(),
                    file_id,
                ) matches Result::Ok(entry) && spec_fetch_cached(entry, self.cache_map())
                    == Option::Some(Result::<Seq<u8>, Error>::Err(e))),
                FetchOutcome::Data(v) => spec_resolve(self.root@, self.lookup_map(), file_id)
                    matches Result::Ok(entry) && spec_fetch_cached(entry, self.cache_map())
                    == Option::Some(Result::<Seq<u8>, Error>::Ok(v@)),
                FetchOutcome::Need(path, k) => spec_resolve(self.root@, self.lookup_map(), file_id)
                    matches Result::Ok(entry) && k == entry.archive_key && spec_fetch_cached(
                    entry,
                    self.cache_map(),
                ) is None && path@ == spec_cdn_path(
                    self.product@,
                    spec_data_category(),
                    entry.archive_key@,
                ),
            },
    {
        let ckey = match self.root.get_ckey_for_file_id(file_id) {
            Some(c) => *c,
            None => {
                return FetchOutcome::Fail(Error::NotFound);
            },
        };
        let entry = match self.lookup.get(&ckey.id_u128()) {
            Some(e) => *e,
            None => {
                return FetchOutcome::Fail(Error::NotFound);
            },
        };
        let akid = entry.archive_key.id_u128();
        match self.cache.get(&akid) {
            None => {
                let mut category: Vec<u8> = Vec::new();
                category.push(100);
                category.push(97);
                category.push(116);
                category.push(97);
                proof {
                    assert(category@ =~= spec_data_category());
                }
                let path = cdn_path(
                    self.product.as_slice(),
                    category.as_slice(),
                    &entry.archive_key,
                );
                FetchOutcome::Need(path, entry.archive_key)
            },
            Some(blob) => {
                let blob_len: usize = blob.len();
                if entry.offset > blob_len as u64 || (entry.size as u64) > blob_len as u64
                    - entry.offset {
                    return FetchOutcome::Fail(Error::MalformedFormat);
                }
                let start = entry.offset as usize;
                let end = (entry.offset + entry.size as u64) as usize;
                let range = slice_subrange(blob.as_slice(), start, end);
                match decode_blte(range) {
                    Ok(v) => FetchOutcome::Data(v),
                    Err(e) => FetchOutcome::Fail(e),
                }
            },
        }
    }

    /// Hands a retrieved blob back to the fetcher's cache image under its
    /// key. Later fetches for that key are answered from the cache.
    pub fn provide_blob(&mut self, key: &CKey, bytes: Vec<u8>)
        ensures
            final(self).cache_map() == old(self).cache_map().insert(key_u128(key@), bytes@),
            final(self).root == old(self).root,
            final(self).archive_index@ == old(self).archive_index@,
            final(self).product@ == old(self).product@,
            final(self).lookup_map() == old(self).lookup_map(),
    {
        let ghost before = self.cache@.map_values(|v: Vec<u8>| v@);
        let k = key.id_u128();
        let ghost bytes_view = bytes@;
        self.cache.insert(k, bytes);
        proof {
            assert(self.cache@.map_values(|v: Vec<u8>| v@) =~= before.insert(
                key_u128(key@),
                bytes_view,
            ));
        }
    }

    /// True when the cache image already holds a blob for `key`.
    pub fn is_cached(&self, key: &CKey) -> (r: bool)
        ensures
            r == self.cache_map().contains_key(key_u128(key@)),
    {
        self.cache.contains_key(&key.id_u128())
    }

    /// Plans one whole-archive retrieval for bulk pre-population: nothing
    /// when the cache already holds the archive (an idempotent no-op),
    /// otherwise the CDN path the I/O shell must fetch and hand back.
    pub fn poll_fetch_archive(&self, key: &CKey) -> (r: Option<Vec<u8>>)
        ensures
            match r {
                Option::Some(path) => !self.cache_map().contains_key(key_u128(key@)) && path@
                    == spec_cdn_path(self.product@, spec_data_category(), key@),
                Option::None => self.cache_map().contains_key(key_u128(key@)),
            },
    {
        if self.is_cached(key) {
            None
        } else {
            let mut category: Vec<u8> = Vec::new();
            category.push(100);
            category.push(97);
            category.push(116);
            category.push(97);
            proof {
                assert(category@ =~= spec_data_category());
            }
            Some(cdn_path(self.product.as_slice(), category.as_slice(), key))
        }
    }
}

/// A key untouched from table position `j` on keeps its binding through the
/// replay.
pub proof fn lemma_merge_preserves(
    m: Map<u128, ArchiveEntry>,
    es: Seq<ArchiveEntry>,
    j: int,
    k: u128,
)
    requires
        forall|i: int| j <= i < es.len() ==> key_u128(es[i].key@) != k,
    ensures
        spec_merge_entries(m, es, j).contains_key(k) == m.contains_key(k),
        m.contains_key(k) ==> spec_merge_entries(m, es, j)[k] == m[k],
    decreases es.len() - j,
{
    if 0 <= j < es.len() {
        lemma_merge_preserves(m.insert(key_u128(es[j].key@), es[j]), es, j + 1, k);
    }
}

/// Law: a key that occurs in the records from `j` on ends bound to the same
/// entry whatever table the replay started from — the file being merged
/// overwrites whatever stood there before.
pub proof fn lemma_merge_last_wins(
    m1: Map<u128, ArchiveEntry>,
    m2: Map<u128, ArchiveEntry>,
    es: Seq<ArchiveEntry>,
    j: int,
    k: u128,
)
    requires
        0 <= j,
        exists|i: int| j <= i < es.len() && key_u128(es[i].key@) == k,
    ensures
        spec_merge_entries(m1, es, j).contains_key(k),
        spec_merge_entries(m1, es, j)[k] == spec_merge_entries(m2, es, j)[k],
    decreases es.len() - j,
{
    let i0 = choose|i: int| j <= i < es.len() && key_u128(es[i].key@) == k;
    if exists|i: int| j + 1 <= i < es.len() && key_u128(es[i].key@) == k {
        lemma_merge_last_wins(
            m1.insert(key_u128(es[j].key@), es[j]),
            m2.insert(key_u128(es[j].key@), es[j]),
            es,
            j + 1,
            k,
        );
    } else {
        assert(i0 == j);
        lemma_merge_preserves(m1.insert(k, es[j]), es, j + 1, k);
        lemma_merge_preserves(m2.insert(k, es[j]), es, j + 1, k);
    }
}

/// Law: after merging index file A and then index file B, every key that B
/// holds is bound exactly as if B alone had been merged — B's entry
/// overwrites A's for every key present in both.
pub proof fn lemma_index_merge_overwrites(
    m: Map<u128, ArchiveEntry>,
    a: Seq<ArchiveEntry>,
    b: Seq<ArchiveEntry>,
    k: u128,
)
    requires
        exists|i: int| 0 <= i < b.len() && key_u128(b[i].key@) == k,
    ensures
        spec_merge_entries(spec_merge_entries(m, a, 0), b, 0).contains_key(k),
        spec_merge_entries(spec_merge_entries(m, a, 0), b, 0)[k] == spec_merge_entries(
            Map::<u128, ArchiveEntry>::empty(),
            b,
            0,
        )[k],
{
    lemma_merge_last_wins(
        spec_merge_entries(m, a, 0),
        Map::<u128, ArchiveEntry>::empty(),
        b,
        0,
        k,
    );
}

/// Law: once the archive blob an entry points into is cached, a fetch is
/// answered from the cache — with bytes that depend on the entry and the
/// blob alone, so a second fetch returns byte-identical output — and caching
/// blobs under other keys changes nothing for this entry.
pub proof fn lemma_fetch_cache_consistent(
    entry: ArchiveEntry,
    cache: Map<u128, Seq<u8>>,
    blob: Seq<u8>,
    other: u128,
    other_blob: Seq<u8>,
)
    requires
        other != key_u128(entry.archive_key@),
    ensures
        spec_fetch_cached(entry, cache.insert(key_u128(entry.archive_key@), blob))
            == Option::Some(spec_fetch_ready(entry, blob)),
        spec_fetch_cached(entry, cache.insert(other, other_blob)) == spec_fetch_cached(
            entry,
            cache,
        ),
{
}

} // verus!
