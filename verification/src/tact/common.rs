use vstd::prelude::*;

verus! {

/// A fixed 16-byte content hash: identifies data by its un-encoded content,
/// independent of how it is encoded on the wire.
#[derive(Clone, Copy, Debug, Hash)]
pub struct CKey {
    pub bytes: [u8; 16],
}

impl View for CKey {
    type V = Seq<u8>;

    open spec fn view(&self) -> Seq<u8> {
        self.bytes@
    }
}

impl PartialEq for CKey {
    /// Byte-exact equality.
    fn eq(&self, o: &CKey) -> (r: bool) {
        let mut i: usize = 0;
        while i < 16
            invariant
                i <= 16,
                forall|j: int| 0 <= j < i ==> self@[j] == o@[j],
            decreases 16 - i,
        {
            if self.bytes[i] != o.bytes[i] {
                return false;
            }
            i = i + 1;
        }
        proof {
            assert(self@ =~= o@);
        }
        true
    }
}

impl Eq for CKey {

}

impl vstd::std_specs::cmp::PartialEqSpecImpl for CKey {
    open spec fn obeys_eq_spec() -> bool {
        true
    }

    open spec fn eq_spec(&self, o: &CKey) -> bool {
        self@ == o@
    }
}

/// The little-endian integer value of a byte sequence.
pub open spec fn le_bytes(s: Seq<u8>) -> int
    decreases s.len(),
{
    if s.len() == 0 {
        0
    } else {
        s[0] + 256 * le_bytes(s.skip(1))
    }
}

/// 256 to the power `n`.
pub open spec fn pow256(n: nat) -> int
    decreases n,
{
    if n == 0 {
        1
    } else {
        256 * pow256((n - 1) as nat)
    }
}

/// A numeric stand-in for a content key: the little-endian value of its 16
/// bytes, one distinct integer per distinct key. The merged archive lookup
/// table is keyed by this value.
pub open spec fn key_id(s: Seq<u8>) -> int {
    le_bytes(s)
}

/// `key_id` carried into the machine integer that the lookup tables use.
pub open spec fn key_u128(s: Seq<u8>) -> u128 {
    key_id(s) as u128
}

pub proof fn lemma_le_bytes_bound(s: Seq<u8>)
    ensures
        0 <= le_bytes(s) < pow256(s.len()),
    decreases s.len(),
{
    if s.len() == 0 {
    } else {
        lemma_le_bytes_bound(s.skip(1));
        assert(256 * le_bytes(s.skip(1)) <= 256 * (pow256((s.len() - 1) as nat) - 1))
            by (nonlinear_arith)
            requires
                le_bytes(s.skip(1)) <= pow256((s.len() - 1) as nat) - 1,
        ;
        assert(256 * le_bytes(s.skip(1)) >= 0) by (nonlinear_arith)
            requires
                le_bytes(s.skip(1)) >= 0,
        ;
    }
}

impl CKey {
    /// Builds a key from exactly 16 raw bytes.
    pub fn from_slice(b: &[u8]) -> (r: CKey)
        requires
            b@.len() == 16,
        ensures
            r@ == b@,
    {
        let mut bytes = [0u8; 16];
        let mut i: usize = 0;
        while i < 16
            invariant
                i <= 16,
                b@.len() == 16,
                forall|j: int| 0 <= j < i ==> bytes@[j] == b@[j],
            decreases 16 - i,
        {
            bytes[i] = b[i];
            i = i + 1;
        }
        proof {
            assert(bytes@ =~= b@);
        }
        CKey { bytes }
    }

    /// The key's numeric stand-in, used to index the merged archive table.
    pub fn id_u128(&self) -> (r: u128)
        ensures
            r == key_id(self@),
            r == key_u128(self@),
    {
        let mut acc: u128 = 0;
        let mut i: usize = 16;
        while i > 0
            invariant
                i <= 16,
                acc == le_bytes(self@.skip(i as int)),
                self@.len() == 16,
            decreases i,
        {
            proof {
                lemma_le_bytes_bound(self@.skip(i - 1));
                lemma_le_bytes_bound(self@.skip(i as int));
                assert(self@.skip(i - 1).skip(1) =~= self@.skip(i as int));
                assert(acc * 256 + 255 < pow256((16 - (i - 1)) as nat)) by (nonlinear_arith)
                    requires
                        0 <= acc < pow256((16 - i) as nat),
                        pow256((16 - (i - 1)) as nat) == 256 * pow256((16 - i) as nat),
                ;
                lemma_pow256_le((16 - (i - 1)) as nat, 16);
                assert(pow256(16) == 0x100000000000000000000000000000000) by {
                    reveal_with_fuel(pow256, 17);
                }
            }
            i = i - 1;
            acc = acc * 256 + (self.bytes[i] as u128);
        }
        proof {
            assert(self@.skip(0) =~= self@);
        }
        acc
    }

    /// The nibble `n` rendered as a lower-case hexadecimal digit.
    pub open spec fn spec_hex_digit(n: int) -> u8 {
        if n < 10 {
            (48 + n) as u8
        } else {
            (87 + n) as u8
        }
    }

    /// The key rendered as 32 lower-case hexadecimal ASCII bytes.
    pub open spec fn spec_hex(s: Seq<u8>) -> Seq<u8> {
        Seq::new(
            2 * s.len(),
            |i: int|
                if i % 2 == 0 {
                    Self::spec_hex_digit(s[i / 2] as int / 16)
                } else {
                    Self::spec_hex_digit(s[i / 2] as int % 16)
                },
        )
    }

    /// Human-readable rendering: the 32 hex digits of the key, as ASCII bytes.
    pub fn hex(&self) -> (r: Vec<u8>)
        ensures
            r@ == Self::spec_hex(self@),
    {
        let mut r: Vec<u8> = Vec::new();
        let mut i: usize = 0;
        while i < 16
            invariant
                i <= 16,
                self@.len() == 16,
                r@.len() == 2 * i,
                forall|j: int| 0 <= j < 2 * i ==> r@[j] == Self::spec_hex(self@)[j],
            decreases 16 - i,
        {
            let b = self.bytes[i];
            let hi = b / 16;
            let lo = b % 16;
            r.push(if hi < 10 { 48 + hi } else { 87 + hi });
            r.push(if lo < 10 { 48 + lo } else { 87 + lo });
            i = i + 1;
        }
        proof {
            assert(r@ =~= Self::spec_hex(self@));
        }
        r
    }
}

/// Two same-length byte sequences with the same little-endian value are the
/// same sequence: distinct keys never share a numeric stand-in.
pub proof fn lemma_le_bytes_injective(a: Seq<u8>, b: Seq<u8>)
    requires
        a.len() == b.len(),
        le_bytes(a) == le_bytes(b),
    ensures
        a == b,
    decreases a.len(),
{
    if a.len() == 0 {
        assert(a =~= b);
    } else {
        lemma_le_bytes_bound(a.skip(1));
        lemma_le_bytes_bound(b.skip(1));
        assert(a[0] == b[0] && le_bytes(a.skip(1)) == le_bytes(b.skip(1))) by (nonlinear_arith)
            requires
                a[0] + 256 * le_bytes(a.skip(1)) == b[0] + 256 * le_bytes(b.skip(1)),
                0 <= a[0] < 256,
                0 <= b[0] < 256,
                le_bytes(a.skip(1)) >= 0,
                le_bytes(b.skip(1)) >= 0,
        ;
        lemma_le_bytes_injective(a.skip(1), b.skip(1));
        assert forall|i: int| 0 <= i < a.len() implies a[i] == b[i] by {
            if i > 0 {
                assert(a.skip(1)[i - 1] == a[i]);
                assert(b.skip(1)[i - 1] == b[i]);
            }
        }
        assert(a =~= b);
    }
}

/// `key_u128` never collides on 16-byte keys.
pub proof fn lemma_key_u128_injective(a: Seq<u8>, b: Seq<u8>)
    requires
        a.len() == 16,
        b.len() == 16,
        key_u128(a) == key_u128(b),
    ensures
        a == b,
{
    lemma_le_bytes_bound(a);
    lemma_le_bytes_bound(b);
    assert(pow256(16) == 0x100000000000000000000000000000000) by {
        reveal_with_fuel(pow256, 17);
    }
    lemma_le_bytes_injective(a, b);
}

/// `pow256` is positive.
pub proof fn lemma_pow256_pos(n: nat)
    ensures
        pow256(n) >= 1,
    decreases n,
{
    if n > 0 {
        lemma_pow256_pos((n - 1) as nat);
        assert(256 * pow256((n - 1) as nat) >= pow256((n - 1) as nat)) by (nonlinear_arith)
            requires
                pow256((n - 1) as nat) >= 1,
        ;
    }
}

/// Monotonicity of `pow256`.
pub proof fn lemma_pow256_le(a: nat, b: nat)
    requires
        a <= b,
    ensures
        pow256(a) <= pow256(b),
    decreases b,
{
    if a < b {
        lemma_pow256_le(a, (b - 1) as nat);
        lemma_pow256_pos((b - 1) as nat);
        assert(256 * pow256((b - 1) as nat) >= pow256((b - 1) as nat)) by (nonlinear_arith)
            requires
                pow256((b - 1) as nat) >= 1,
        ;
    }
}

} // verus!
