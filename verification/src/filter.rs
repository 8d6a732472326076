//! The probabilistic membership filter over codes: a bloom filter of the
//! `bloomfilter` crate behind trusted declarations, wrapped in a verified
//! type whose view is the set of inserted codes.
//!
//! The model is one-sided: a query answers `true` for every member of the
//! view (no false negatives), and may answer `true` for other codes too
//! (bounded false positives, not modelled).

use vstd::prelude::*;

use bloomfilter::Bloom;

verus! {

#[verifier::external_type_specification]
#[verifier::external_body]
#[verifier::reject_recursive_types(T)]
pub struct ExBloom<T: ?Sized>(Bloom<T>);

/// The set of codes that were inserted into a filter.
pub uninterp spec fn bloom_view(b: Bloom<String>) -> Set<Seq<char>>;

/// The number of bits in a filter's bitmap.
pub uninterp spec fn bloom_bit_len(b: Bloom<String>) -> u64;

/// What a byte sequence deserializes to: the represented code set and the
/// bitmap bit count, or nothing when the bytes are not a well-formed
/// serialized filter.
pub uninterp spec fn decoded_filter(bytes: Seq<u8>) -> Option<(Set<Seq<char>>, u64)>;

/// Relies on `bloomfilter::Bloom::new`: allocates a zeroed bitmap of
/// `bitmap_size` bytes, so the new filter holds nothing; it fails only when
/// no random seed could be drawn from the operating system.  The call
/// asserts both arguments positive and multiplies `bitmap_size` by eight in
/// checked `u64` arithmetic, so those inputs are excluded here.
#[verifier::external_body]
fn bloom_new(bitmap_size: usize, items_count: usize) -> (r: Option<Bloom<String>>)
    requires
        0 < bitmap_size,
        bitmap_size as int <= 0x1fff_ffff_ffff_ffff,
        items_count > 0,
    ensures
        r matches Some(b) ==> {
            &&& bloom_view(b) == Set::<Seq<char>>::empty()
            &&& bloom_bit_len(b) == 8 * bitmap_size
        },
{
    match Bloom::new(bitmap_size, items_count) {
        Ok(b) => Some(b),
        Err(_) => None,
    }
}

/// Relies on `bloomfilter::Bloom::set`: records the item; every bit it
/// touches stays set, so earlier members stay members.  The bitmap size and
/// the hashing seed are not changed.  `set` reduces hashes modulo the bit
/// count, so a zero bit count is excluded here.
#[verifier::external_body]
fn bloom_set(b: &mut Bloom<String>, item: &String)
    requires
        bloom_bit_len(*old(b)) > 0,
    ensures
        bloom_view(*final(b)) == bloom_view(*old(b)).insert(item@),
        bloom_bit_len(*final(b)) == bloom_bit_len(*old(b)),
{
    b.set(item)
}

/// Relies on `bloomfilter::Bloom::check`: answers `true` for every item
/// whose `set` bits are all present, so in particular for every inserted
/// item — no false negatives.  `check` reduces hashes modulo the bit count,
/// so a zero bit count is excluded here.
#[verifier::external_body]
fn bloom_check(b: &Bloom<String>, item: &String) -> (r: bool)
    requires
        bloom_bit_len(*b) > 0,
    ensures
        bloom_view(*b).contains(item@) ==> r,
{
    b.check(item)
}

/// Relies on `bloomfilter::Bloom::to_bytes`: emits the header (format
/// version, hash-function count, bitmap length, seed) followed by the
/// bitmap, which `Bloom::from_slice` accepts back as a filter with the very
/// same bits, seed and hash count — hence the same members and bit count.
#[verifier::external_body]
fn bloom_to_bytes(b: &Bloom<String>) -> (r: Vec<u8>)
    ensures
        decoded_filter(r@) == Some((bloom_view(*b), bloom_bit_len(*b))),
{
    b.to_bytes()
}

/// Relies on `bloomfilter::Bloom::from_slice`: parses the serialized
/// header, failing on short input, a version mismatch, a zero hash count or
/// an inconsistent bitmap length; whether it fails, and what filter it
/// yields, depend on the bytes alone.
#[verifier::external_body]
fn bloom_from_slice(bytes: &[u8]) -> (r: Option<Bloom<String>>)
    ensures
        match r {
            Some(b) => decoded_filter(bytes@) == Some((bloom_view(b), bloom_bit_len(b))),
            None => decoded_filter(bytes@) is None,
        },
{
    match Bloom::from_slice(bytes) {
        Ok(b) => Some(b),
        Err(_) => None,
    }
}

/// Relies on `bloomfilter::Bloom::len`: returns the bitmap's bit count.
#[verifier::external_body]
fn bloom_len(b: &Bloom<String>) -> (r: u64)
    ensures
        r == bloom_bit_len(*b),
{
    b.len()
}

/// Largest expected-item count a filter may be sized for.
pub const MAX_FILTER_ITEMS: u64 = 0x100_0000_0000;

/// Parts-per-billion representation of a false-positive rate; the largest
/// value stands for rate one, which a filter cannot be sized for.
pub const PPB_ONE: u64 = 1_000_000_000;

/// Base-two logarithm, rounded up.
pub open spec fn spec_ceil_log2(x: u64) -> nat
    decreases x,
{
    if x <= 1 {
        0
    } else {
        1 + spec_ceil_log2(((x + 1) / 2) as u64)
    }
}

/// Two to the power `n`.
pub open spec fn pow2i(n: nat) -> int
    decreases n,
{
    if n == 0 {
        1
    } else {
        2 * pow2i((n - 1) as nat)
    }
}

proof fn lemma_pow2i_pos(n: nat)
    ensures
        pow2i(n) >= 1,
    decreases n,
{
    if n > 0 {
        lemma_pow2i_pos((n - 1) as nat);
    }
}

/// The rounded-up logarithm is inverse to the power.
proof fn lemma_ceil_log2_le(x: u64, k: nat)
    requires
        x as int <= pow2i(k),
    ensures
        spec_ceil_log2(x) <= k,
    decreases x,
{
    if x > 1 {
        if k == 0 {
            assert(false);
        } else {
            assert(pow2i(k) == 2 * pow2i((k - 1) as nat));
            lemma_pow2i_pos((k - 1) as nat);
            lemma_ceil_log2_le(((x + 1) / 2) as u64, (k - 1) as nat);
        }
    }
}

proof fn lemma_ceil_log2_le_self(x: u64)
    ensures
        spec_ceil_log2(x) <= x,
    decreases x,
{
    if x > 1 {
        lemma_ceil_log2_le_self(((x + 1) / 2) as u64);
    }
}

/// Base-two logarithm, rounded up.
fn ceil_log2(x: u64) -> (r: u64)
    requires
        x <= 0x1_0000_0000,
    ensures
        r == spec_ceil_log2(x),
    decreases x,
{
    if x <= 1 {
        0
    } else {
        proof {
            lemma_ceil_log2_le_self(((x + 1) / 2) as u64);
        }
        1 + ceil_log2((x + 1) / 2)
    }
}

/// Bitmap size in bytes for an expected-item count and a false-positive
/// rate, from the standard sizing rule `bits = items * log2(1/rate) / ln 2`
/// with the logarithm rounded up and `1 / ln 2` approximated from above by
/// `1443 / 1000`, so the filter is never undersized.
pub open spec fn spec_inv_rate(fp_ppb: u64) -> int
    recommends
        fp_ppb > 0,
{
    (PPB_ONE + fp_ppb - 1) / (fp_ppb as int)
}

pub open spec fn spec_bitmap_bytes(items: int, fp_ppb: u64) -> int {
    (items * spec_ceil_log2(spec_inv_rate(fp_ppb) as u64) * 1443) / 1000 / 8 + 1
}

fn bitmap_bytes(items: usize, fp_ppb: u64) -> (r: Option<usize>)
    requires
        0 < items,
        items as int <= MAX_FILTER_ITEMS as int,
        0 < fp_ppb < PPB_ONE,
    ensures
        r matches Some(n) ==> {
            &&& n as int == spec_bitmap_bytes(items as int, fp_ppb)
            &&& 0 < n
            &&& n as int <= 0x1fff_ffff_ffff_ffff
        },
        r is None <==> spec_bitmap_bytes(items as int, fp_ppb) > usize::MAX as int,
{
    let numerator: u64 = PPB_ONE + fp_ppb - 1;
    proof {
        vstd::arithmetic::div_mod::lemma_div_nonincreasing(numerator as int, fp_ppb as int);
    }
    let inv_rate: u64 = numerator / fp_ppb;
    proof {
        reveal_with_fuel(pow2i, 33);
        lemma_ceil_log2_le(inv_rate, 31);
    }
    let log: u64 = ceil_log2(inv_rate);
    proof {
        vstd::arithmetic::mul::lemma_mul_upper_bound(
            items as int,
            MAX_FILTER_ITEMS as int,
            log as int,
            31,
        );
    }
    let bits_scaled: u64 = (items as u64) * log * 1443;
    let bytes64: u64 = bits_scaled / 1000 / 8 + 1;
    if bytes64 <= usize::MAX as u64 {
        Some(bytes64 as usize)
    } else {
        None
    }
}

/// A probabilistic set of codes with no false negatives.
pub struct MembershipFilter {
    bloom: Bloom<String>,
}

impl View for MembershipFilter {
    type V = Set<Seq<char>>;

    closed spec fn view(&self) -> Set<Seq<char>> {
        bloom_view(self.bloom)
    }
}

impl MembershipFilter {
    /// A usable filter: its bitmap is not empty.
    pub closed spec fn wf(self) -> bool {
        bloom_bit_len(self.bloom) > 0
    }

    /// An empty filter sized for `expected_items` items at false-positive
    /// rate `fp_ppb` parts per billion.  Fails only when the bitmap would
    /// not be addressable on this platform or when the operating system
    /// yields no random seed for the hash functions.
    pub fn new(expected_items: usize, fp_ppb: u64) -> (r: Option<MembershipFilter>)
        requires
            0 < expected_items,
            expected_items as int <= MAX_FILTER_ITEMS as int,
            0 < fp_ppb < PPB_ONE,
        ensures
            r matches Some(f) ==> f.wf() && f@ == Set::<Seq<char>>::empty(),
    {
        match bitmap_bytes(expected_items, fp_ppb) {
            Some(size) => match bloom_new(size, expected_items) {
                Some(bloom) => Some(MembershipFilter { bloom }),
                None => None,
            },
            None => None,
        }
    }

    /// Record a code.
    pub fn insert(&mut self, code: &String)
        requires
            old(self).wf(),
        ensures
            final(self).wf(),
            final(self)@ == old(self)@.insert(code@),
    {
        bloom_set(&mut self.bloom, code);
    }

    /// Membership query, `true` for every recorded code and possibly — with
    /// bounded probability — for others.
    pub fn check(&self, code: &String) -> (r: bool)
        requires
            self.wf(),
        ensures
            self@.contains(code@) ==> r,
    {
        bloom_check(&self.bloom, code)
    }

    /// Serialize the filter to a self-describing byte blob.
    pub fn to_bytes(&self) -> (r: Vec<u8>)
        ensures
            decoded_filter(r@) is Some,
            decoded_filter(r@).unwrap().0 == self@,
            self.wf() ==> decoded_filter(r@).unwrap().1 > 0,
    {
        bloom_to_bytes(&self.bloom)
    }

    /// Deserialize a filter from a byte blob, rejecting bytes that are not
    /// a well-formed serialized filter or that carry an empty bitmap.
    pub fn from_bytes(bytes: &[u8]) -> (r: Option<MembershipFilter>)
        ensures
            r is Some <==> (decoded_filter(bytes@) matches Some(d) && d.1 > 0),
            r matches Some(f) ==> {
                &&& f.wf()
                &&& f@ == decoded_filter(bytes@).unwrap().0
            },
    {
        match bloom_from_slice(bytes) {
            Some(bloom) => {
                if bloom_len(&bloom) > 0 {
                    Some(MembershipFilter { bloom })
                } else {
                    None
                }
            },
            None => None,
        }
    }
}

} // verus!
