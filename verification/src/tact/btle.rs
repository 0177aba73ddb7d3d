use vstd::prelude::*;
use vstd::slice::{slice_subrange, slice_to_vec};

use crate::error::Error;

verus! {

// The block container format ("BLTE"): a fixed magic, a declared header size,
// and either one implicit chunk (header size zero) or a chunk table followed
// by the chunk payloads in order. Each chunk payload begins with a one-byte
// mode tag: raw bytes, or a deflate stream inflated to the declared
// decompressed size. Multi-byte header fields are big-endian; the chunk table
// carries, per chunk, its compressed size, decompressed size, and the
// checksum of its compressed bytes. Decoding concatenates the chunks' decoded
// output and trusts nothing about the input's well-formedness.

/// The result of inflating a zlib-wrapped deflate stream: a function of the
/// input bytes alone, or nothing when the stream is invalid.
pub uninterp spec fn inflate_of(s: Seq<u8>) -> Option<Seq<u8>>;

/// The 16-byte digest a chunk's integrity checksum is compared against: a
/// function of the input bytes alone.
pub uninterp spec fn checksum_of(s: Seq<u8>) -> Seq<u8>;

/// Relies on miniz_oxide::inflate::decompress_to_vec_zlib: inflates a
/// zlib-wrapped deflate stream, a deterministic function of the input bytes,
/// failing exactly on invalid streams.
#[verifier::external_body]
fn inflate(data: &[u8]) -> (r: Option<Vec<u8>>)
    ensures
        match r {
            Some(v) => inflate_of(data@) == Some(v@),
            None => inflate_of(data@) is None,
        },
{
    miniz_oxide::inflate::decompress_to_vec_zlib(data).ok()
}

/// Relies on md5::compute: the 16-byte MD5 digest of the input, a
/// deterministic function of the input bytes alone.
#[verifier::external_body]
fn checksum(data: &[u8]) -> (r: [u8; 16])
    ensures
        r@ == checksum_of(data@),
{
    md5::compute(data).0
}

/// The container magic, the ASCII bytes "BLTE".
pub open spec fn spec_magic() -> Seq<u8> {
    seq![66u8, 76u8, 84u8, 69u8]
}

/// The big-endian value of the four bytes of `s` starting at `i`.
pub open spec fn be32(s: Seq<u8>, i: int) -> int
    recommends
        0 <= i,
        i + 4 <= s.len(),
{
    s[i] * 0x1000000 + s[i + 1] * 0x10000 + s[i + 2] * 0x100 + s[i + 3]
}

/// What decoding one chunk payload yields: the first byte selects the mode,
/// the rest is the chunk body. `expect` is the declared decompressed size,
/// absent for the implicit single chunk of a zero-size header.
pub open spec fn spec_decode_chunk(payload: Seq<u8>, expect: Option<int>) -> Result<Seq<u8>, Error> {
    if payload.len() == 0 {
        Result::Err(Error::TruncatedInput)
    } else {
        let body = payload.skip(1);
        if payload[0] == 78 {  // 'N': raw, copied verbatim
            match expect {
                Option::Some(d) => if d == body.len() {
                    Result::Ok(body)
                } else {
                    Result::Err(Error::MalformedFormat)
                },
                Option::None => Result::Ok(body),
            }
        } else if payload[0] == 90 {  // 'Z': deflate-compressed
            match inflate_of(body) {
                Option::Some(out) => match expect {
                    Option::Some(d) => if d == out.len() {
                        Result::Ok(out)
                    } else {
                        Result::Err(Error::MalformedFormat)
                    },
                    Option::None => Result::Ok(out),
                },
                Option::None => Result::Err(Error::MalformedFormat),
            }
        } else {
            // 'F' (recursive frame), 'E' (encrypted) and anything unrecognized
            Result::Err(Error::UnsupportedEncoding)
        }
    }
}

/// What decoding the chunk list yields, walking the chunk table at `info_pos`
/// and the payloads at `payload_pos`: the concatenation of the chunks' decoded
/// output, or the first failure. Trailing bytes after the last declared chunk
/// are a format error.
pub open spec fn spec_decode_chunks(
    data: Seq<u8>,
    info_pos: int,
    count: int,
    payload_pos: int,
) -> Result<Seq<u8>, Error>
    decreases count,
{
    if count <= 0 {
        if payload_pos == data.len() {
            Result::Ok(Seq::empty())
        } else {
            Result::Err(Error::MalformedFormat)
        }
    } else {
        let comp = be32(data, info_pos);
        let decomp = be32(data, info_pos + 4);
        let sum = data.subrange(info_pos + 8, info_pos + 24);
        if payload_pos + comp > data.len() {
            Result::Err(Error::TruncatedInput)
        } else {
            let payload = data.subrange(payload_pos, payload_pos + comp);
            if checksum_of(payload) != sum {
                Result::Err(Error::ChecksumMismatch)
            } else {
                match spec_decode_chunk(payload, Option::Some(decomp)) {
                    Result::Err(e) => Result::Err(e),
                    Result::Ok(out) => match spec_decode_chunks(
                        data,
                        info_pos + 24,
                        count - 1,
                        payload_pos + comp,
                    ) {
                        Result::Err(e) => Result::Err(e),
                        Result::Ok(rest) => Result::Ok(out + rest),
                    },
                }
            }
        }
    }
}

/// What decoding a whole container blob yields. A zero header size means the
/// remainder is one implicit chunk with no checksum and no declared size;
/// otherwise the header holds the chunk count and the chunk table, and must
/// measure exactly 12 + 24 bytes per chunk and fit in the blob.
pub open spec fn spec_decode(data: Seq<u8>) -> Result<Seq<u8>, Error> {
    if data.len() < 8 {
        Result::Err(Error::MalformedFormat)
    } else if data.subrange(0, 4) != spec_magic() {
        Result::Err(Error::MalformedFormat)
    } else {
        let hsize = be32(data, 4);
        if hsize == 0 {
            if data.len() == 8 {
                Result::Err(Error::TruncatedInput)
            } else {
                spec_decode_chunk(data.skip(8), Option::None)
            }
        } else if data.len() < 12 {
            Result::Err(Error::MalformedFormat)
        } else {
            let n = be32(data, 8);
            if hsize != 12 + 24 * n || data.len() < hsize {
                Result::Err(Error::MalformedFormat)
            } else {
                spec_decode_chunks(data, 12, n, hsize)
            }
        }
    }
}

/// The declared decompressed size as the spec sees it.
pub open spec fn opt_int(e: Option<u32>) -> Option<int> {
    match e {
        Option::Some(d) => Option::Some(d as int),
        Option::None => Option::None,
    }
}

/// Reads the big-endian 32-bit field of `data` at `pos`.
fn read_be32(data: &[u8], pos: usize) -> (r: u32)
    requires
        pos + 4 <= data@.len(),
    ensures
        r == be32(data@, pos as int),
{
    (data[pos] as u32) * 0x1000000 + (data[pos + 1] as u32) * 0x10000 + (data[pos + 2] as u32)
        * 0x100 + (data[pos + 3] as u32)
}

/// True exactly when the computed digest equals the declared 16-byte checksum.
fn digest_matches(d: &[u8; 16], s: &[u8]) -> (r: bool)
    requires
        s@.len() == 16,
    ensures
        r == (d@ == s@),
{
    let mut i: usize = 0;
    while i < 16
        invariant
            i <= 16,
            s@.len() == 16,
            forall|j: int| 0 <= j < i ==> d@[j] == s@[j],
        decreases 16 - i,
    {
        if d[i] != s[i] {
            return false;
        }
        i = i + 1;
    }
    proof {
        assert(d@ =~= s@);
    }
    true
}

/// Decodes one chunk payload: dispatches on the mode tag and holds the result
/// to the declared decompressed size when one is declared.
fn decode_chunk(payload: &[u8], expect: Option<u32>) -> (r: Result<Vec<u8>, Error>)
    ensures
        match (r, spec_decode_chunk(payload@, opt_int(expect))) {
            (Result::Ok(v), Result::Ok(s)) => v@ == s,
            (Result::Err(e1), Result::Err(e2)) => e1 == e2,
            _ => false,
        },
{
    if payload.len() == 0 {
        return Err(Error::TruncatedInput);
    }
    let mode = payload[0];
    let body = slice_subrange(payload, 1, payload.len());
    proof {
        assert(body@ =~= payload@.skip(1));
    }
    if mode == 78 {
        match expect {
            Some(d) => {
                if body.len() != d as usize {
                    return Err(Error::MalformedFormat);
                }
            },
            None => {},
        }
        Ok(slice_to_vec(body))
    } else if mode == 90 {
        match inflate(body) {
            Some(v) => {
                match expect {
                    Some(d) => {
                        if v.len() != d as usize {
                            return Err(Error::MalformedFormat);
                        }
                    },
                    None => {},
                }
                Ok(v)
            },
            None => Err(Error::MalformedFormat),
        }
    } else {
        Err(Error::UnsupportedEncoding)
    }
}

/// The decoded prefix already emitted, put in front of the rest of a chunk
/// walk's outcome.
pub open spec fn prepend_result(p: Seq<u8>, r: Result<Seq<u8>, Error>) -> Result<Seq<u8>, Error> {
    match r {
        Result::Ok(rest) => Result::Ok(p + rest),
        Result::Err(e) => Result::Err(e),
    }
}

/// Walks the declared chunk table and payloads, concatenating each chunk's
/// decoded output.
#[verifier::rlimit(100)]
fn decode_chunks(data: &[u8], n: u32) -> (r: Result<Vec<u8>, Error>)
    requires
        data@.len() >= 12 + 24 * (n as int),
    ensures
        match (r, spec_decode_chunks(data@, 12, n as int, 12 + 24 * (n as int))) {
            (Result::Ok(v), Result::Ok(s)) => v@ == s,
            (Result::Err(e1), Result::Err(e2)) => e1 == e2,
            _ => false,
        },
{
    let ghost goal = spec_decode_chunks(data@, 12, n as int, 12 + 24 * (n as int));
    let data_len: usize = data.len();
    let mut out: Vec<u8> = Vec::new();
    let mut i: u32 = 0;
    let mut payload_pos: usize = 12 + 24 * (n as usize);
    proof {
        match goal {
            Result::Ok(rest) => {
                assert(Seq::<u8>::empty() + rest =~= rest);
            },
            Result::Err(_) => {},
        }
    }
    while i < n
        invariant
            i <= n,
            data@.len() >= 12 + 24 * (n as int),
            data@.len() == data_len,
            payload_pos <= data@.len(),
            goal == spec_decode_chunks(data@, 12, n as int, 12 + 24 * (n as int)),
            goal == prepend_result(
                out@,
                spec_decode_chunks(
                    data@,
                    12 + 24 * (i as int),
                    n as int - i as int,
                    payload_pos as int,
                ),
            ),
        decreases n - i,
    {
        proof {
            assert(24 * (i as int) + 24 <= 24 * (n as int));
        }
        let info_pos: usize = 12 + 24 * (i as usize);
        let comp = read_be32(data, info_pos);
        let decomp = read_be32(data, info_pos + 4);
        let sum = slice_subrange(data, info_pos + 8, info_pos + 24);
        if (payload_pos as u128) + (comp as u128) > (data_len as u128) {
            return Err(Error::TruncatedInput);
        }
        let payload = slice_subrange(data, payload_pos, payload_pos + comp as usize);
        let digest = checksum(payload);
        if !digest_matches(&digest, sum) {
            return Err(Error::ChecksumMismatch);
        }
        let chunk_out = decode_chunk(payload, Some(decomp));
        match chunk_out {
            Ok(mut v) => {
                proof {
                    let r_next = spec_decode_chunks(
                        data@,
                        12 + 24 * (i as int) + 24,
                        n as int - i as int - 1,
                        payload_pos as int + comp as int,
                    );
                    match r_next {
                        Result::Ok(rest) => {
                            assert(out@ + (v@ + rest) =~= (out@ + v@) + rest);
                        },
                        Result::Err(_) => {},
                    }
                }
                out.append(&mut v);
            },
            Err(e) => {
                return Err(e);
            },
        }
        payload_pos = payload_pos + comp as usize;
        i = i + 1;
    }
    if payload_pos == data.len() {
        proof {
            assert(out@ + Seq::<u8>::empty() =~= out@);
        }
        Ok(out)
    } else {
        Err(Error::MalformedFormat)
    }
}

/// Decodes a container blob into the original uncompressed byte stream,
/// verifying each chunk's integrity checksum. A pure function of its input:
/// succeeds and fails exactly as `spec_decode` says.
pub fn decode_blte(data: &[u8]) -> (r: Result<Vec<u8>, Error>)
    ensures
        match (r, spec_decode(data@)) {
            (Result::Ok(v), Result::Ok(s)) => v@ == s,
            (Result::Err(e1), Result::Err(e2)) => e1 == e2,
            _ => false,
        },
{
    if data.len() < 8 {
        return Err(Error::MalformedFormat);
    }
    if data[0] != 66 || data[1] != 76 || data[2] != 84 || data[3] != 69 {
        return Err(Error::MalformedFormat);
    }
    proof {
        assert(data@.subrange(0, 4) =~= spec_magic());
    }
    let hsize = read_be32(data, 4);
    if hsize == 0 {
        if data.len() == 8 {
            return Err(Error::TruncatedInput);
        }
        let payload = slice_subrange(data, 8, data.len());
        proof {
            assert(payload@ =~= data@.skip(8));
        }
        return decode_chunk(payload, None);
    }
    if data.len() < 12 {
        return Err(Error::MalformedFormat);
    }
    let n = read_be32(data, 8);
    if (hsize as u64) != 12 + 24 * (n as u64) || (data.len() as u64) < (hsize as u64) {
        return Err(Error::MalformedFormat);
    }
    decode_chunks(data, n)
}

/// Wraps a payload as a well-formed single-chunk raw-mode container: the
/// magic, a zero header size, the raw mode tag, then the payload verbatim.
pub open spec fn spec_encode_raw(p: Seq<u8>) -> Seq<u8> {
    spec_magic() + seq![0u8, 0u8, 0u8, 0u8] + seq![78u8] + p
}

/// Re-encodes a payload in single-chunk raw mode.
pub fn encode_blte_raw(payload: &[u8]) -> (r: Vec<u8>)
    ensures
        r@ == spec_encode_raw(payload@),
{
    let mut r: Vec<u8> = Vec::new();
    r.push(66);
    r.push(76);
    r.push(84);
    r.push(69);
    r.push(0);
    r.push(0);
    r.push(0);
    r.push(0);
    r.push(78);
    r.extend_from_slice(payload);
    proof {
        assert(r@ =~= spec_encode_raw(payload@));
    }
    r
}

/// Law: decoding any well-formed single-chunk raw-mode container returns
/// exactly the chunk payload bytes.
pub proof fn lemma_decode_single_raw(data: Seq<u8>)
    requires
        data.len() >= 9,
        data.subrange(0, 4) == spec_magic(),
        be32(data, 4) == 0,
        data[8] == 78,
    ensures
        spec_decode(data) == Result::<Seq<u8>, Error>::Ok(data.skip(9)),
{
    assert(data.skip(8).len() > 0);
    assert(data.skip(8)[0] == data[8]);
    assert(data.skip(8).skip(1) =~= data.skip(9));
}

/// Law: re-encoding a payload in single-chunk raw mode and decoding it again
/// is the identity.
pub proof fn lemma_raw_round_trip(p: Seq<u8>)
    ensures
        spec_decode(spec_encode_raw(p)) == Result::<Seq<u8>, Error>::Ok(p),
{
    let data = spec_encode_raw(p);
    assert(data.subrange(0, 4) =~= spec_magic());
    assert(data[4] == 0u8 && data[5] == 0u8 && data[6] == 0u8 && data[7] == 0u8);
    assert(data[8] == 78u8);
    lemma_decode_single_raw(data);
    assert(data.skip(9) =~= p);
}

/// Law: a container whose single declared chunk carries a checksum that does
/// not match its compressed bytes decodes to a checksum-mismatch error, and to
/// no output at all.
pub proof fn lemma_checksum_mismatch(data: Seq<u8>)
    requires
        data.len() >= 36,
        data.subrange(0, 4) == spec_magic(),
        be32(data, 4) == 36,
        be32(data, 8) == 1,
        36 + be32(data, 12) <= data.len(),
        checksum_of(data.subrange(36, 36 + be32(data, 12))) != data.subrange(20, 36),
    ensures
        spec_decode(data) == Result::<Seq<u8>, Error>::Err(Error::ChecksumMismatch),
{
}

} // verus!
