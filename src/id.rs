use ripemd::Digest;
use vstd::prelude::*;
use vstd::utf8::encode_utf8;

verus! {

/// Number of bytes in an identifier produced by RIPEMD-160.
pub const EXPECTED_ID_LENGTH_IN_BYTES: usize = 20;

/// Number of bits in one byte of an identifier.
pub const BITS_IN_BYTE: usize = 8;

/// Largest identifier length, in bytes, whose length in bits fits in a `usize`.
pub const MAX_ID_LENGTH_IN_BYTES: usize = 0x1fff_ffff;

/// What RIPEMD-160 returns for the given bytes.
pub uninterp spec fn ripemd160_of(content: Seq<u8>) -> Seq<u8>;

/// Relies on ripemd's `Ripemd160` (through `Digest::digest`): the digest of
/// the bytes, whose output size is `U20`, so always twenty bytes.
#[verifier::external_body]
fn ripemd160(content: &[u8]) -> (r: Vec<u8>)
    ensures
        r@ == ripemd160_of(content@),
        r@.len() == EXPECTED_ID_LENGTH_IN_BYTES,
{
    ripemd::Ripemd160::digest(content).to_vec()
}

/// The bytes of `a` XOR-ed with those of `b`, as far as both reach.
pub open spec fn xor_bytes(a: Seq<u8>, b: Seq<u8>) -> Seq<u8> {
    let n = if a.len() <= b.len() { a.len() } else { b.len() };
    Seq::new(n, |i: int| a[i] ^ b[i])
}

/// `256` raised to the power `n`.
pub open spec fn pow256(n: nat) -> nat
    decreases n,
{
    if n == 0 {
        1
    } else {
        256 * pow256((n - 1) as nat)
    }
}

/// The non-negative integer that the bytes spell in big-endian order.
pub open spec fn be_value(s: Seq<u8>) -> nat
    decreases s.len(),
{
    if s.len() == 0 {
        0
    } else {
        (s[0] as nat) * pow256((s.len() - 1) as nat) + be_value(s.drop_first())
    }
}

/// The XOR distance between two identifiers, as a non-negative integer.
pub open spec fn distance(a: Seq<u8>, b: Seq<u8>) -> nat {
    be_value(xor_bytes(a, b))
}

/// Whether the bit at `position` of `byte`, counted from the most
/// significant bit, is set.
pub open spec fn bit_set(byte: u8, position: nat) -> bool {
    position < 8 && (byte >> ((7 - position) as u8)) & 1u8 == 1u8
}

/// The index, from the most significant bit, of the first set bit of `byte`
/// at or after `from`; 8 when there is none.
pub open spec fn first_set_bit_from(byte: u8, from: nat) -> nat
    decreases 8 - from,
{
    if from >= 8 {
        8
    } else if bit_set(byte, from) {
        from
    } else {
        first_set_bit_from(byte, from + 1)
    }
}

/// The index, from the most significant bit, of the first set bit of `byte`.
pub open spec fn first_set_bit(byte: u8) -> nat {
    first_set_bit_from(byte, 0)
}

/// The differing-bit position of `a` against `b`, looking at the bytes of
/// `a` from index `from` on: for the first byte index `i` where they
/// differ, with `x` their XOR and `k` the first set bit of `x`, it is
/// `8 * |a| - (8 * i + k) - 1`; 0 when no byte differs.
pub open spec fn differing_bit_from(a: Seq<u8>, b: Seq<u8>, from: int) -> nat
    decreases a.len() - from,
{
    if from < 0 || from >= a.len() {
        0
    } else if a[from] != b[from] {
        (8 * a.len() - (8 * from + first_set_bit(a[from] ^ b[from])) - 1) as nat
    } else {
        differing_bit_from(a, b, from + 1)
    }
}

/// The differing-bit position of `a` against `b`: the index of the highest
/// order bit in which they differ, counted up from the least significant
/// bit of `a`; 0 when they are equal.
pub open spec fn differing_bit_position(a: Seq<u8>, b: Seq<u8>) -> nat {
    differing_bit_from(a, b, 0)
}

/// A node or key identifier: a sequence of bytes read as a big-endian
/// number, normally the twenty bytes of a RIPEMD-160 digest.
#[derive(Debug)]
pub struct Id {
    id: Vec<u8>,
}

impl View for Id {
    type V = Seq<u8>;

    closed spec fn view(&self) -> Seq<u8> {
        self.id@
    }
}

impl Id {
    #[verifier::type_invariant]
    closed spec fn bit_length_fits(&self) -> bool {
        self.id@.len() <= MAX_ID_LENGTH_IN_BYTES
    }

    /// An identifier made of the given bytes.
    pub fn new(id: Vec<u8>) -> (r: Id)
        requires
            id@.len() <= MAX_ID_LENGTH_IN_BYTES,
        ensures
            r@ == id@,
    {
        Id { id }
    }

    /// The identifier of a text: RIPEMD-160 of its UTF-8 bytes.
    pub fn generate_from(content: String) -> (r: Id)
        ensures
            r@ == ripemd160_of(encode_utf8(content@)),
            r@.len() == EXPECTED_ID_LENGTH_IN_BYTES,
    {
        Id::generate_from_bytes(content.as_str().as_bytes())
    }

    /// The identifier of some bytes: their RIPEMD-160 digest.
    pub fn generate_from_bytes(content: &[u8]) -> (r: Id)
        ensures
            r@ == ripemd160_of(content@),
            r@.len() == EXPECTED_ID_LENGTH_IN_BYTES,
    {
        let digest = ripemd160(content);
        Id { id: digest }
    }
}


/// `pow256` grows with its exponent.
pub proof fn lemma_pow256_monotonic(m: nat, n: nat)
    requires
        m <= n,
    ensures
        1 <= pow256(m) <= pow256(n),
    decreases n,
{
    if n > 0 {
        if m < n {
            lemma_pow256_monotonic(m, (n - 1) as nat);
        } else {
            lemma_pow256_monotonic(0, (n - 1) as nat);
        }
    }
}

/// The big-endian value of `s` is below `256^|s|`.
pub proof fn lemma_be_value_bound(s: Seq<u8>)
    ensures
        be_value(s) < pow256(s.len()),
    decreases s.len(),
{
    if s.len() > 0 {
        let p = pow256((s.len() - 1) as nat);
        lemma_be_value_bound(s.drop_first());
        let h = s[0] as nat;
        assert(h * p + p <= 256 * p) by (nonlinear_arith)
            requires
                h <= 255,
        ;
    }
}

/// A leading byte that is not zero puts the value at `256^(|s|-1)` or above.
pub proof fn lemma_be_value_lower_bound(s: Seq<u8>)
    requires
        s.len() > 0,
        s[0] != 0,
    ensures
        be_value(s) >= pow256((s.len() - 1) as nat),
{
    let p = pow256((s.len() - 1) as nat);
    let h = s[0] as nat;
    assert(h * p >= p) by (nonlinear_arith)
        requires
            h >= 1,
    ;
}

/// Leading zero bytes do not change the big-endian value.
pub proof fn lemma_be_value_skip_zeros(s: Seq<u8>, z: int)
    requires
        0 <= z <= s.len(),
        forall|j: int| 0 <= j < z ==> s[j] == 0,
    ensures
        be_value(s) == be_value(s.subrange(z, s.len() as int)),
    decreases z,
{
    if z > 0 {
        let rest = s.drop_first();
        assert(rest.subrange(z - 1, rest.len() as int) =~= s.subrange(z, s.len() as int));
        lemma_be_value_skip_zeros(rest, z - 1);
    } else {
        assert(s.subrange(0, s.len() as int) =~= s);
    }
}

/// Two sequences of one length that agree up to index `k` and differ there
/// are ordered by their bytes at `k`.
pub proof fn lemma_be_value_first_difference(a: Seq<u8>, b: Seq<u8>, k: int)
    requires
        a.len() == b.len(),
        0 <= k < a.len(),
        forall|j: int| 0 <= j < k ==> a[j] == b[j],
        a[k] < b[k],
    ensures
        be_value(a) < be_value(b),
    decreases k,
{
    if k == 0 {
        let p = pow256((a.len() - 1) as nat);
        lemma_be_value_bound(a.drop_first());
        let x = a[0] as nat;
        let y = b[0] as nat;
        assert(x * p + p <= y * p) by (nonlinear_arith)
            requires
                x < y,
        ;
    } else {
        lemma_be_value_first_difference(a.drop_first(), b.drop_first(), k - 1);
    }
}

/// Index of the first byte of `s` that is not zero (`|s|` when all are).
fn skip_leading_zeros(s: &Vec<u8>) -> (i: usize)
    ensures
        i <= s@.len(),
        forall|j: int| 0 <= j < i ==> s@[j] == 0,
        i < s@.len() ==> s@[i as int] != 0,
{
    let mut i: usize = 0;
    while i < s.len() && s[i] == 0
        invariant
            i <= s@.len(),
            forall|j: int| 0 <= j < i ==> s@[j] == 0,
        decreases s@.len() - i,
    {
        i += 1;
    }
    i
}

/// Whether the big-endian number spelled by `a` is below the one spelled by
/// `b`; the two may have different lengths.
pub fn be_less_than(a: &Vec<u8>, b: &Vec<u8>) -> (r: bool)
    ensures
        r == (be_value(a@) < be_value(b@)),
{
    let i = skip_leading_zeros(a);
    let j = skip_leading_zeros(b);
    let la = a.len() - i;
    let lb = b.len() - j;
    let ghost sa = a@.subrange(i as int, a@.len() as int);
    let ghost sb = b@.subrange(j as int, b@.len() as int);
    proof {
        lemma_be_value_skip_zeros(a@, i as int);
        lemma_be_value_skip_zeros(b@, j as int);
    }
    if la != lb {
        proof {
            if la < lb {
                lemma_be_value_bound(sa);
                lemma_be_value_lower_bound(sb);
                lemma_pow256_monotonic(la as nat, (lb - 1) as nat);
            } else {
                lemma_be_value_bound(sb);
                lemma_be_value_lower_bound(sa);
                lemma_pow256_monotonic(lb as nat, (la - 1) as nat);
            }
        }
        return la < lb;
    }
    let mut k: usize = 0;
    while k < la
        invariant
            la == lb,
            a@.len() <= usize::MAX,
            b@.len() <= usize::MAX,
            be_value(a@) == be_value(sa),
            be_value(b@) == be_value(sb),
            la == sa.len(),
            lb == sb.len(),
            i + la == a@.len(),
            j + lb == b@.len(),
            sa == a@.subrange(i as int, a@.len() as int),
            sb == b@.subrange(j as int, b@.len() as int),
            k <= la,
            forall|t: int| 0 <= t < k ==> sa[t] == sb[t],
        decreases la - k,
    {
        let x = a[i + k];
        let y = b[j + k];
        if x != y {
            proof {
                assert(sa[k as int] == x);
                assert(sb[k as int] == y);
                if x < y {
                    lemma_be_value_first_difference(sa, sb, k as int);
                } else {
                    lemma_be_value_first_difference(sb, sa, k as int);
                }
            }
            return x < y;
        }
        k += 1;
    }
    proof {
        assert(sa =~= sb);
    }
    false
}

proof fn lemma_no_difference_from(a: Seq<u8>, from: int)
    requires
        0 <= from <= a.len(),
    ensures
        differing_bit_from(a, a, from) == 0,
    decreases a.len() - from,
{
    if from < a.len() {
        lemma_no_difference_from(a, from + 1);
    }
}

proof fn lemma_zero_bytes_value(s: Seq<u8>)
    requires
        forall|i: int| 0 <= i < s.len() ==> s[i] == 0,
    ensures
        be_value(s) == 0,
    decreases s.len(),
{
    if s.len() > 0 {
        lemma_zero_bytes_value(s.drop_first());
    }
}

/// An identifier compared with itself: its differing-bit position is 0 and
/// its XOR distance is 0.
pub proof fn lemma_identical_ids(a: Seq<u8>, b: Seq<u8>)
    requires
        a == b,
    ensures
        differing_bit_position(a, b) == 0,
        distance(a, b) == 0,
{
    lemma_no_difference_from(a, 0);
    let x = xor_bytes(a, b);
    assert forall|i: int| 0 <= i < x.len() implies x[i] == 0 by {
        let v = a[i];
        assert(v ^ v == 0u8) by (bit_vector);
    }
    lemma_zero_bytes_value(x);
}

/// A byte that is not zero has a set bit.
proof fn lemma_nonzero_has_set_bit(x: u8)
    ensures
        (first_set_bit(x) < 8) == (x != 0),
        first_set_bit(x) <= 8,
{
    reveal_with_fuel(first_set_bit_from, 9);
    assert(x != 0 <==> (((x >> 7u8) & 1u8) == 1u8 || ((x >> 6u8) & 1u8) == 1u8
        || ((x >> 5u8) & 1u8) == 1u8 || ((x >> 4u8) & 1u8) == 1u8 || ((x >> 3u8) & 1u8) == 1u8
        || ((x >> 2u8) & 1u8) == 1u8 || ((x >> 1u8) & 1u8) == 1u8 || ((x >> 0u8) & 1u8) == 1u8))
        by (bit_vector);
}

impl Id {
    /// The bytes of the identifier.
    pub fn bytes(&self) -> (r: &Vec<u8>)
        ensures
            r@ == self@,
    {
        &self.id
    }

    /// Number of bytes in the identifier.
    pub fn len(&self) -> (r: usize)
        ensures
            r == self@.len(),
            r <= MAX_ID_LENGTH_IN_BYTES,
    {
        proof {
            use_type_invariant(self);
        }
        self.id.len()
    }

    /// Number of bits in the identifier.
    pub fn bit_length(&self) -> (r: usize)
        ensures
            r == 8 * self@.len(),
    {
        proof {
            use_type_invariant(self);
        }
        self.id.len() * BITS_IN_BYTE
    }

    /// The differing-bit position of this identifier against `other`: the
    /// index of the bucket that `other` falls in for a table owned by this
    /// identifier.
    pub fn differing_bit_position(&self, other: &Id) -> (r: usize)
        requires
            self@.len() <= other@.len(),
        ensures
            r == differing_bit_position(self@, other@),
            self@.len() > 0 ==> r < 8 * self@.len(),
            self@.len() == 0 ==> r == 0,
    {
        proof {
            use_type_invariant(self);
        }
        let n = self.id.len();
        let mut index: usize = 0;
        while index < n
            invariant
                n == self@.len(),
                n <= other@.len(),
                n <= MAX_ID_LENGTH_IN_BYTES,
                index <= n,
                differing_bit_position(self@, other@) == differing_bit_from(
                    self@,
                    other@,
                    index as int,
                ),
            decreases n - index,
        {
            let a = self.id[index];
            let b = other.id[index];
            let xor = a ^ b;
            let position = self.bit_position_set_in(xor);
            proof {
                lemma_nonzero_has_set_bit(xor);
                assert((a ^ b) == 0u8 <==> a == b) by (bit_vector);
                assert(self@[index as int] == a);
                assert(other@[index as int] == b);
            }
            if position.1 {
                let byte_index = index * BITS_IN_BYTE;
                let bit_index = position.0;
                return n * BITS_IN_BYTE - (byte_index + bit_index) - 1;
            }
            index += 1;
        }
        0
    }

    /// The big-endian bytes of the XOR distance to `other`: one byte for
    /// each index that both identifiers have.
    pub fn distance_from(&self, other: &Id) -> (r: Vec<u8>)
        ensures
            r@ == xor_bytes(self@, other@),
            be_value(r@) == distance(self@, other@),
    {
        let n = if self.id.len() <= other.id.len() {
            self.id.len()
        } else {
            other.id.len()
        };
        let mut distance: Vec<u8> = Vec::with_capacity(n);
        let mut index: usize = 0;
        while index < n
            invariant
                n <= self@.len(),
                n <= other@.len(),
                n == xor_bytes(self@, other@).len(),
                index <= n,
                distance@ =~= xor_bytes(self@, other@).subrange(0, index as int),
            decreases n - index,
        {
            distance.push(self.id[index] ^ other.id[index]);
            index += 1;
        }
        proof {
            assert(distance@ =~= xor_bytes(self@, other@));
        }
        distance
    }

    /// The index, from the most significant bit, of the first set bit of
    /// `byte`, and whether there is one.
    pub fn bit_position_set_in(&self, byte: u8) -> (r: (usize, bool))
        ensures
            r.1 == (byte != 0),
            r.1 ==> r.0 == first_set_bit(byte),
            r.0 < 8,
    {
        proof {
            lemma_nonzero_has_set_bit(byte);
        }
        let mut bit_position: usize = 0;
        while bit_position < BITS_IN_BYTE
            invariant
                bit_position <= 8,
                (first_set_bit(byte) < 8) == (byte != 0),
                first_set_bit(byte) == first_set_bit_from(byte, bit_position as nat),
            decreases 8 - bit_position,
        {
            if self.is_bit_set(byte, bit_position) {
                return (bit_position, true);
            }
            bit_position += 1;
        }
        (0, false)
    }

    /// Whether the bit at `position` of `byte`, counted from the most
    /// significant bit, is set.
    pub fn is_bit_set(&self, byte: u8, position: usize) -> (r: bool)
        requires
            position < 8,
        ensures
            r == bit_set(byte, position as nat),
    {
        let shift = (BITS_IN_BYTE - 1 - position) as u8;
        let value = byte & (1u8 << shift);
        proof {
            assert(shift < 8 ==> ((byte & (1u8 << shift)) > 0 <==> ((byte >> shift) & 1u8) == 1u8))
                by (bit_vector);
        }
        value > 0
    }
}

impl Clone for Id {
    fn clone(&self) -> (r: Self)
        ensures
            r@ == self@,
    {
        proof {
            use_type_invariant(self);
        }
        Id { id: self.id.clone() }
    }
}

impl PartialEq for Id {
    fn eq(&self, other: &Id) -> (r: bool)
        ensures
            r == (self@ == other@),
    {
        let r = self.id == other.id;
        proof {
            if r {
                assert(self.id@ =~= other.id@);
            }
        }
        r
    }
}

impl vstd::std_specs::cmp::PartialEqSpecImpl for Id {
    open spec fn obeys_eq_spec() -> bool {
        true
    }

    open spec fn eq_spec(&self, other: &Id) -> bool {
        self@ == other@
    }
}

impl Eq for Id {
}

} // verus!
