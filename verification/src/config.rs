use vstd::prelude::*;
use vstd::slice::slice_to_vec;

use crate::error::Error;
use crate::tact::common::CKey;

verus! {

// The initialization manifests are line-oriented text: the version and CDN
// manifests hold one row per region, fields separated by '|', the row's first
// field naming the region; the build and CDN configuration blobs hold one
// "name = value ..." row per key, fields separated by single spaces. Content
// keys appear as 32 lower- or upper-case hex digits.

/// `s` split at every occurrence of `sep`: n separators give n + 1 pieces, in
/// order, the separators dropped.
pub open spec fn spec_split(s: Seq<u8>, sep: u8) -> Seq<Seq<u8>>
    decreases s.len(),
{
    if s.len() == 0 {
        seq![Seq::<u8>::empty()]
    } else if s[0] == sep {
        seq![Seq::<u8>::empty()] + spec_split(s.skip(1), sep)
    } else {
        let rest = spec_split(s.skip(1), sep);
        seq![seq![s[0]] + rest[0]] + rest.skip(1)
    }
}

/// A split always yields at least one piece.
pub proof fn lemma_split_len(s: Seq<u8>, sep: u8)
    ensures
        spec_split(s, sep).len() >= 1,
    decreases s.len(),
{
    if s.len() != 0 && s[0] != sep {
        lemma_split_len(s.skip(1), sep);
    }
}

/// The views of a vector of byte vectors.
pub open spec fn seq_views(vs: Seq<Vec<u8>>) -> Seq<Seq<u8>> {
    vs.map_values(|v: Vec<u8>| v@)
}

/// Splits a byte string at every occurrence of `sep`.
#[verifier::rlimit(100)]
pub fn split_bytes(s: &[u8], sep: u8) -> (r: Vec<Vec<u8>>)
    ensures
        seq_views(r@) == spec_split(s@, sep),
{
    let len: usize = s.len();
    let mut done: Vec<Vec<u8>> = Vec::new();
    let mut cur: Vec<u8> = Vec::new();
    let mut pos: usize = 0;
    proof {
        lemma_split_len(s@, sep);
        assert(s@.skip(0) =~= s@);
        assert(Seq::<u8>::empty() + spec_split(s@, sep)[0] =~= spec_split(s@, sep)[0]);
        assert(seq_views(done@) + seq![cur@ + spec_split(s@, sep)[0]] + spec_split(s@, sep).skip(1)
            =~= spec_split(s@, sep));
    }
    while pos < len
        invariant
            pos <= len,
            len == s@.len(),
            spec_split(s@, sep) == seq_views(done@) + seq![cur@ + spec_split(
                s@.skip(pos as int),
                sep,
            )[0]] + spec_split(s@.skip(pos as int), sep).skip(1),
        decreases len - pos,
    {
        let ghost rest = s@.skip(pos as int);
        let ghost rest1 = s@.skip(pos as int + 1);
        let ghost old_done = seq_views(done@);
        let ghost old_cur = cur@;
        proof {
            assert(rest[0] == s@[pos as int]);
            assert(rest.skip(1) =~= rest1);
            lemma_split_len(rest1, sep);
        }
        let b = s[pos];
        if b == sep {
            proof {
                assert(spec_split(rest, sep) == seq![Seq::<u8>::empty()] + spec_split(rest1, sep));
            }
            done.push(cur);
            cur = Vec::new();
            proof {
                assert(seq_views(done@) =~= old_done.push(old_cur));
                assert(old_cur + Seq::<u8>::empty() =~= old_cur);
                assert(seq![spec_split(rest1, sep)[0]] + spec_split(rest1, sep).skip(1)
                    =~= spec_split(rest1, sep));
                assert(old_done + seq![old_cur + spec_split(rest, sep)[0]] + spec_split(
                    rest,
                    sep,
                ).skip(1) =~= seq_views(done@) + seq![cur@ + spec_split(rest1, sep)[0]]
                    + spec_split(rest1, sep).skip(1));
            }
        } else {
            proof {
                assert(spec_split(rest, sep) == seq![seq![rest[0]] + spec_split(rest1, sep)[0]]
                    + spec_split(rest1, sep).skip(1));
            }
            cur.push(b);
            proof {
                assert(cur@ =~= old_cur.push(b));
                assert(old_cur + (seq![b] + spec_split(rest1, sep)[0]) =~= cur@ + spec_split(
                    rest1,
                    sep,
                )[0]);
                assert((seq![seq![b] + spec_split(rest1, sep)[0]] + spec_split(rest1, sep).skip(
                    1,
                )).skip(1) =~= spec_split(rest1, sep).skip(1));
                assert(old_done + seq![old_cur + spec_split(rest, sep)[0]] + spec_split(
                    rest,
                    sep,
                ).skip(1) =~= seq_views(done@) + seq![cur@ + spec_split(rest1, sep)[0]]
                    + spec_split(rest1, sep).skip(1));
            }
        }
        pos = pos + 1;
    }
    proof {
        assert(s@.skip(len as int) =~= Seq::<u8>::empty());
        assert(cur@ + spec_split(Seq::<u8>::empty(), sep)[0] =~= cur@);
        assert(spec_split(Seq::<u8>::empty(), sep).skip(1) =~= Seq::<Seq<u8>>::empty());
    }
    let ghost old_done = seq_views(done@);
    let ghost old_cur = cur@;
    done.push(cur);
    proof {
        assert(seq_views(done@) =~= old_done.push(old_cur));
        assert(old_done + seq![old_cur] + Seq::<Seq<u8>>::empty() =~= seq_views(done@));
    }
    done
}

/// True exactly when the two byte strings hold the same bytes.
pub fn bytes_eq(a: &[u8], b: &[u8]) -> (r: bool)
    ensures
        r == (a@ == b@),
{
    let alen: usize = a.len();
    if alen != b.len() {
        return false;
    }
    let mut i: usize = 0;
    while i < alen
        invariant
            i <= alen,
            alen == a@.len(),
            alen == b@.len(),
            forall|j: int| 0 <= j < i ==> a@[j] == b@[j],
        decreases alen - i,
    {
        if a[i] != b[i] {
            return false;
        }
        i = i + 1;
    }
    proof {
        assert(a@ =~= b@);
    }
    true
}

/// The numeric value of one hex digit, either case, or nothing.
pub open spec fn spec_hex_val(c: u8) -> Option<int> {
    if 48 <= c <= 57 {
        Option::Some((c - 48) as int)
    } else if 97 <= c <= 102 {
        Option::Some((c - 87) as int)
    } else if 65 <= c <= 70 {
        Option::Some((c - 55) as int)
    } else {
        Option::None
    }
}

/// The 16 bytes that 32 hex digits denote, or nothing if the length or a
/// digit is wrong.
pub open spec fn spec_hex_key(s: Seq<u8>) -> Option<Seq<u8>> {
    if s.len() == 32 && (forall|i: int| 0 <= i < 32 ==> spec_hex_val(s[i]) is Some) {
        Option::Some(
            Seq::new(
                16,
                |i: int|
                    (spec_hex_val(s[2 * i])->Some_0 * 16 + spec_hex_val(s[2 * i + 1])->Some_0)
                        as u8,
            ),
        )
    } else {
        Option::None
    }
}

/// The numeric value of one hex digit.
fn hex_val(c: u8) -> (r: Option<u8>)
    ensures
        match r {
            Option::Some(v) => spec_hex_val(c) == Option::Some(v as int),
            Option::None => spec_hex_val(c) is None,
        },
{
    if 48 <= c && c <= 57 {
        Some(c - 48)
    } else if 97 <= c && c <= 102 {
        Some(c - 87)
    } else if 65 <= c && c <= 70 {
        Some(c - 55)
    } else {
        None
    }
}

/// Parses a content key written as 32 hex digits.
pub fn parse_hex_key(s: &[u8]) -> (r: Option<CKey>)
    ensures
        match r {
            Option::Some(k) => spec_hex_key(s@) == Option::Some(k@),
            Option::None => spec_hex_key(s@) is None,
        },
{
    let len: usize = s.len();
    if len != 32 {
        return None;
    }
    let mut out: Vec<u8> = Vec::new();
    let mut i: usize = 0;
    while i < 16
        invariant
            i <= 16,
            s@.len() == 32,
            out@.len() == i,
            forall|j: int| 0 <= j < 2 * i ==> spec_hex_val(s@[j]) is Some,
            forall|j: int|
                0 <= j < i ==> out@[j] == (spec_hex_val(s@[2 * j])->Some_0 * 16 + spec_hex_val(
                    s@[2 * j + 1],
                )->Some_0) as u8,
        decreases 16 - i,
    {
        let hi = match hex_val(s[2 * i]) {
            Some(v) => v,
            None => {
                return None;
            },
        };
        let lo = match hex_val(s[2 * i + 1]) {
            Some(v) => v,
            None => {
                return None;
            },
        };
        out.push(hi * 16 + lo);
        i = i + 1;
    }
    let key = CKey::from_slice(out.as_slice());
    proof {
        assert(spec_hex_key(s@) matches Option::Some(b) && b =~= out@);
    }
    Some(key)
}

/// The fields of the first line whose leading field names `name`, under the
/// given field separator.
pub open spec fn spec_line_fields(lines: Seq<Seq<u8>>, field_sep: u8, name: Seq<u8>) -> Option<
    Seq<Seq<u8>>,
>
    decreases lines.len(),
{
    if lines.len() == 0 {
        Option::None
    } else {
        let fs = spec_split(lines[0], field_sep);
        if fs[0] == name {
            Option::Some(fs)
        } else {
            spec_line_fields(lines.skip(1), field_sep, name)
        }
    }
}

/// `spec_line_fields` over the '\n'-separated lines of a whole manifest.
pub open spec fn spec_find_line_fields(data: Seq<u8>, field_sep: u8, name: Seq<u8>) -> Option<
    Seq<Seq<u8>>,
> {
    spec_line_fields(spec_split(data, 10), field_sep, name)
}

/// Finds the first manifest line whose leading field is `name` and returns
/// that line's fields; a missing line is a configuration-fetch failure.
pub fn find_line_fields(data: &[u8], field_sep: u8, name: &[u8]) -> (r: Result<Vec<Vec<u8>>, Error>)
    ensures
        match r {
            Result::Ok(v) => spec_find_line_fields(data@, field_sep as u8, name@)
                == Option::Some(seq_views(v@)),
            Result::Err(e) => e == Error::ConfigFetchError && spec_find_line_fields(
                data@,
                field_sep as u8,
                name@,
            ) is None,
        },
{
    let lines = split_bytes(data, 10);
    let n = lines.len();
    let ghost all_lines = seq_views(lines@);
    let mut i: usize = 0;
    proof {
        assert(all_lines.skip(0) =~= all_lines);
    }
    while i < n
        invariant
            i <= n,
            n == lines@.len(),
            all_lines == seq_views(lines@),
            all_lines == spec_split(data@, 10),
            spec_line_fields(all_lines, field_sep, name@) == spec_line_fields(
                all_lines.skip(i as int),
                field_sep,
                name@,
            ),
        decreases n - i,
    {
        proof {
            assert(all_lines.skip(i as int)[0] == all_lines[i as int]);
            assert(all_lines.skip(i as int).skip(1) =~= all_lines.skip(i as int + 1));
        }
        let fields = split_bytes(lines[i].as_slice(), field_sep);
        proof {
            lemma_split_len(all_lines[i as int], field_sep);
            assert(seq_views(fields@)[0] == fields@[0]@);
        }
        if bytes_eq(fields[0].as_slice(), name) {
            proof {
                assert(all_lines[i as int] == lines@[i as int]@);
                assert(seq_views(fields@) == spec_split(all_lines[i as int], field_sep));
                assert(spec_line_fields(all_lines.skip(i as int), field_sep, name@)
                    == Option::Some(seq_views(fields@)));
            }
            return Ok(fields);
        }
        i = i + 1;
    }
    proof {
        assert(all_lines.skip(n as int) =~= Seq::<Seq<u8>>::empty());
    }
    Err(Error::ConfigFetchError)
}

/// The build configuration's content key that the version manifest gives for
/// a region: the second '|'-field of the region's row, as a hex key.
pub open spec fn spec_versions_build_key(data: Seq<u8>, region: Seq<u8>) -> Option<Seq<u8>> {
    match spec_find_line_fields(data, 124, region) {
        Option::None => Option::None,
        Option::Some(fs) => if fs.len() < 2 {
            Option::None
        } else {
            spec_hex_key(fs[1])
        },
    }
}

/// Reads the build configuration's content key out of the version manifest.
pub fn parse_versions_build_key(data: &[u8], region: &[u8]) -> (r: Result<CKey, Error>)
    ensures
        match r {
            Result::Ok(k) => spec_versions_build_key(data@, region@) == Option::Some(k@),
            Result::Err(e) => e == Error::ConfigFetchError && spec_versions_build_key(
                data@,
                region@,
            ) is None,
        },
{
    let fields = match find_line_fields(data, 124, region) {
        Ok(v) => v,
        Err(e) => {
            return Err(e);
        },
    };
    if fields.len() < 2 {
        return Err(Error::ConfigFetchError);
    }
    proof {
        assert(seq_views(fields@)[1] == fields@[1]@);
    }
    match parse_hex_key(fields[1].as_slice()) {
        Some(k) => Ok(k),
        None => Err(Error::ConfigFetchError),
    }
}

/// The CDN host list the CDN manifest gives for a region: the second
/// '|'-field of the region's row, split at spaces.
pub open spec fn spec_cdns_hosts(data: Seq<u8>, region: Seq<u8>) -> Option<Seq<Seq<u8>>> {
    match spec_find_line_fields(data, 124, region) {
        Option::None => Option::None,
        Option::Some(fs) => if fs.len() < 2 {
            Option::None
        } else {
            Option::Some(spec_split(fs[1], 32))
        },
    }
}

/// Reads the CDN host list out of the CDN manifest.
pub fn parse_cdns_hosts(data: &[u8], region: &[u8]) -> (r: Result<Vec<Vec<u8>>, Error>)
    ensures
        match r {
            Result::Ok(v) => spec_cdns_hosts(data@, region@) == Option::Some(seq_views(v@)),
            Result::Err(e) => e == Error::ConfigFetchError && spec_cdns_hosts(data@, region@)
                is None,
        },
{
    let fields = match find_line_fields(data, 124, region) {
        Ok(v) => v,
        Err(e) => {
            return Err(e);
        },
    };
    if fields.len() < 2 {
        return Err(Error::ConfigFetchError);
    }
    proof {
        assert(seq_views(fields@)[1] == fields@[1]@);
    }
    Ok(split_bytes(fields[1].as_slice(), 32))
}

/// The hex keys in `fs` from position `j` on: all of them, or nothing as soon
/// as one field is no hex key.
pub open spec fn spec_keys_of_fields(fs: Seq<Seq<u8>>, j: int) -> Option<Seq<Seq<u8>>>
    decreases fs.len() - j,
{
    if j < 0 || j >= fs.len() {
        Option::Some(Seq::empty())
    } else {
        match spec_hex_key(fs[j]) {
            Option::None => Option::None,
            Option::Some(k) => match spec_keys_of_fields(fs, j + 1) {
                Option::None => Option::None,
                Option::Some(rest) => Option::Some(seq![k] + rest),
            },
        }
    }
}

/// The content keys a configuration blob assigns to `name`: the row reads
/// "name = key key ...", fields separated by single spaces.
pub open spec fn spec_config_keys(data: Seq<u8>, name: Seq<u8>) -> Option<Seq<Seq<u8>>> {
    match spec_find_line_fields(data, 32, name) {
        Option::None => Option::None,
        Option::Some(fs) => if fs.len() >= 2 && fs[1] == seq![61u8] {
            spec_keys_of_fields(fs, 2)
        } else {
            Option::None
        },
    }
}

/// The views of a vector of content keys.
pub open spec fn key_views(ks: Seq<CKey>) -> Seq<Seq<u8>> {
    ks.map_values(|k: CKey| k@)
}

/// Reads the content keys a configuration blob assigns to `name` — the root
/// file's key under "root", the archive list under "archives".
pub fn parse_config_keys(data: &[u8], name: &[u8]) -> (r: Result<Vec<CKey>, Error>)
    ensures
        match r {
            Result::Ok(v) => spec_config_keys(data@, name@) == Option::Some(key_views(v@)),
            Result::Err(e) => e == Error::ConfigFetchError && spec_config_keys(data@, name@)
                is None,
        },
{
    let fields = match find_line_fields(data, 32, name) {
        Ok(v) => v,
        Err(e) => {
            return Err(e);
        },
    };
    let ghost fs = seq_views(fields@);
    let nf = fields.len();
    if nf < 2 {
        return Err(Error::ConfigFetchError);
    }
    proof {
        assert(fs[1] == fields@[1]@);
    }
    let mut eq_sign: Vec<u8> = Vec::new();
    eq_sign.push(61);
    proof {
        assert(eq_sign@ =~= seq![61u8]);
    }
    if !bytes_eq(fields[1].as_slice(), eq_sign.as_slice()) {
        return Err(Error::ConfigFetchError);
    }
    let mut out: Vec<CKey> = Vec::new();
    let mut j: usize = 2;
    while j < nf
        invariant
            2 <= j <= nf,
            nf == fields@.len(),
            fs == seq_views(fields@),
            spec_find_line_fields(data@, 32, name@) == Option::Some(fs),
            fs.len() >= 2 && fs[1] == seq![61u8],
            spec_keys_of_fields(fs, 2) == (match spec_keys_of_fields(fs, j as int) {
                Option::None => Option::<Seq<Seq<u8>>>::None,
                Option::Some(rest) => Option::Some(key_views(out@) + rest),
            }),
        decreases nf - j,
    {
        proof {
            assert(fs[j as int] == fields@[j as int]@);
        }
        let ghost old_keys = key_views(out@);
        match parse_hex_key(fields[j].as_slice()) {
            Some(k) => {
                out.push(k);
                proof {
                    assert(key_views(out@) =~= old_keys.push(k@));
                    match spec_keys_of_fields(fs, j as int + 1) {
                        Option::Some(rest) => {
                            assert(old_keys + (seq![k@] + rest) =~= key_views(out@) + rest);
                        },
                        Option::None => {},
                    }
                }
            },
            None => {
                proof {
                    assert(spec_keys_of_fields(fs, j as int) is None);
                    assert(spec_keys_of_fields(fs, 2) is None);
                }
                return Err(Error::ConfigFetchError);
            },
        }
        j = j + 1;
    }
    proof {
        match spec_keys_of_fields(fs, 2) {
            Option::Some(ks) => {
                assert(key_views(out@) + Seq::<Seq<u8>>::empty() =~= key_views(out@));
                assert(ks =~= key_views(out@));
            },
            Option::None => {},
        }
    }
    Ok(out)
}

} // verus!
