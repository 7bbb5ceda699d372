//! Configuration of a simulation run, and parsing of the RNG seed string.

use vstd::prelude::*;

use vstd::string::StringSliceAdditionalSpecFns;

use crate::util::Color;

verus! {

/// Options of the rendering layer.
pub struct DrawOptions {
    pub bg_color: Color,
    pub angle_subdiv: u32,
}

/// Options of the simulation world. The turn chance is the rational
/// probability `turn_chance.0 / turn_chance.1`.
pub struct WorldOptions {
    pub max_pipes: u8,
    pub max_bounds: (u8, u8, u8),
    pub turn_chance: (u64, u64),
    pub max_gen_time: u32,
    pub max_freeze_time: u32,
}

impl WorldOptions {
    /// Bounds span at least one cell per axis, and the turn chance is a
    /// real ratio.
    pub open spec fn wf(self) -> bool {
        &&& self.max_bounds.0 >= 1
        &&& self.max_bounds.1 >= 1
        &&& self.max_bounds.2 >= 1
        &&& self.turn_chance.1 > 0
    }
}

/// Organizes configuration so it can be passed around to the parts of the
/// program that need it.
pub struct Configuration {
    pub draw: DrawOptions,
    pub world: WorldOptions,
    pub single_run: bool,
    pub rng_seed: Option<u64>,
    pub window_size: Option<(u32, u32)>,
}

/// An ASCII decimal digit.
pub open spec fn is_dec_digit(b: u8) -> bool {
    48 <= b <= 57
}

/// Value of a string of decimal digits, most significant first.
pub open spec fn dec_value(s: Seq<u8>) -> int
    decreases s.len(),
{
    if s.len() == 0 {
        0
    } else {
        dec_value(s.drop_last()) * 10 + (s.last() - 48)
    }
}

/// The digit part of a numeral: everything after an optional leading plus.
pub open spec fn numeral_digits(s: Seq<u8>) -> Seq<u8> {
    if s.len() > 0 && s[0] == 43 {
        s.skip(1)
    } else {
        s
    }
}

/// A string the standard u64 parser accepts: an optional plus sign, then at
/// least one decimal digit, denoting a value that fits in 64 bits.
pub open spec fn is_u64_numeral(s: Seq<u8>) -> bool {
    let d = numeral_digits(s);
    &&& d.len() > 0
    &&& (forall|i: int| 0 <= i < d.len() ==> is_dec_digit(#[trigger] d[i]))
    &&& dec_value(d) <= u64::MAX
}

/// Value of a byte string read big-endian.
pub open spec fn be_value(s: Seq<u8>) -> int
    decreases s.len(),
{
    if s.len() == 0 {
        0
    } else {
        be_value(s.drop_last()) * 256 + s.last()
    }
}

pub uninterp spec fn md5_digest_of(bytes: Seq<u8>) -> Seq<u8>;

/// The 64-bit seed a string denotes: its numeric value where it is a u64
/// numeral, else the first eight bytes of its digest, packed big-endian.
pub open spec fn seed_of(s: Seq<u8>) -> int {
    if is_u64_numeral(s) {
        dec_value(numeral_digits(s))
    } else {
        be_value(md5_digest_of(s).take(8))
    }
}

/// Relies on md5::compute: the 16-byte digest depends on the input bytes
/// alone.
#[verifier::external_body]
fn md5_digest(val: &str) -> (r: Vec<u8>)
    ensures
        r@ == md5_digest_of(val.spec_bytes()),
        r@.len() == 16,
{
    let digest = md5::compute(val);
    digest.0.to_vec()
}

spec fn pow256(n: int) -> int
    decreases n,
{
    if n <= 0 {
        1
    } else {
        256 * pow256(n - 1)
    }
}

proof fn lemma_pow256_pos(n: int)
    ensures
        0 < pow256(n),
    decreases (if n <= 0 { 0int } else { n }),
{
    if n > 0 {
        lemma_pow256_pos(n - 1);
    }
}

proof fn lemma_pow256_increases(a: int, b: int)
    requires
        0 <= a <= b,
    ensures
        0 < pow256(a) <= pow256(b),
    decreases b,
{
    lemma_pow256_pos(a);
    if a < b {
        lemma_pow256_increases(a, b - 1);
    }
}

proof fn lemma_be_value_bound(s: Seq<u8>)
    ensures
        0 <= be_value(s) < pow256(s.len() as int),
    decreases s.len(),
{
    if s.len() > 0 {
        lemma_be_value_bound(s.drop_last());
    }
}

proof fn lemma_dec_value_nonneg(d: Seq<u8>)
    requires
        forall|i: int| 0 <= i < d.len() ==> is_dec_digit(#[trigger] d[i]),
    ensures
        dec_value(d) >= 0,
    decreases d.len(),
{
    if d.len() > 0 {
        assert(forall|i: int|
            0 <= i < d.drop_last().len() ==> is_dec_digit(#[trigger] d.drop_last()[i]));
        lemma_dec_value_nonneg(d.drop_last());
    }
}

proof fn lemma_dec_value_monotone(d: Seq<u8>, k: int)
    requires
        0 <= k <= d.len(),
        forall|i: int| 0 <= i < d.len() ==> is_dec_digit(#[trigger] d[i]),
    ensures
        dec_value(d.take(k)) <= dec_value(d),
    decreases d.len() - k,
{
    if k < d.len() {
        lemma_dec_value_monotone(d, k + 1);
        assert(d.take(k + 1).drop_last() =~= d.take(k));
        assert(forall|i: int| 0 <= i < d.take(k).len() ==> is_dec_digit(#[trigger] d.take(k)[i]));
        lemma_dec_value_nonneg(d.take(k));
        assert(dec_value(d.take(k + 1)) == dec_value(d.take(k)) * 10 + (d[k] - 48));
    } else {
        assert(d.take(k) =~= d);
    }
}

fn hash_seed(val: &str) -> (seed: u64)
    ensures
        seed == be_value(md5_digest_of(val.spec_bytes()).take(8)),
{
    let hash = md5_digest(val);
    let ghost digest = hash@;
    let mut acc: u64 = 0;
    let mut i: usize = 0;
    proof {
        assert(digest.take(0) =~= Seq::<u8>::empty());
    }
    while i < 8
        invariant
            hash@ == digest,
            digest.len() == 16,
            i <= 8,
            acc == be_value(digest.take(i as int)),
        decreases 8 - i,
    {
        let b = hash[i];
        proof {
            lemma_be_value_bound(digest.take(i as int));
            assert(pow256(0) == 1);
            assert(pow256(1) == 256);
            assert(pow256(2) == 0x10000);
            assert(pow256(3) == 0x1000000);
            assert(pow256(4) == 0x100000000);
            assert(pow256(5) == 0x10000000000);
            assert(pow256(6) == 0x1000000000000);
            assert(pow256(7) == 0x100000000000000);
            lemma_pow256_increases(i as int, 7);
            assert(digest.take(i + 1).drop_last() =~= digest.take(i as int));
            assert(digest.take(i + 1).last() == digest[i as int]);
        }
        acc = acc * 256 + (b as u64);
        i = i + 1;
    }
    proof {
        assert(digest.take(8) == md5_digest_of(val.spec_bytes()).take(8));
    }
    acc
}

/// Converts a seed string to the 64-bit seed the generator takes. A string
/// the standard u64 parser accepts becomes its numeric value; any other
/// string is hashed, and the first eight digest bytes are packed big-endian
/// into the seed, so the conversion never fails.
pub fn parse_seed(val: &str) -> (seed: u64)
    ensures
        seed == seed_of(val.spec_bytes()),
{
    let ghost s = val.spec_bytes();
    let ghost d = numeral_digits(s);
    let bytes = val.as_bytes();
    let n = bytes.len();
    let start: usize = if n > 0 && bytes[0] == 43 {
        1
    } else {
        0
    };
    proof {
        assert(d =~= s.skip(start as int));
    }
    if start == n {
        proof {
            assert(!is_u64_numeral(s));
        }
        return hash_seed(val);
    }
    let mut acc: u64 = 0;
    let mut i: usize = start;
    proof {
        assert(d.take(0) =~= Seq::<u8>::empty());
    }
    while i < n
        invariant
            s == val.spec_bytes(),
            bytes@ == s,
            d == numeral_digits(s),
            d =~= s.skip(start as int),
            n == s.len(),
            start <= i <= n,
            start <= 1,
            forall|j: int| start <= j < i ==> is_dec_digit(#[trigger] s[j]),
            acc == dec_value(d.take(i - start)),
        decreases n - i,
    {
        let b = bytes[i];
        if b < 48 || b > 57 {
            proof {
                assert(d[i - start] == s[i as int]);
                assert(!is_dec_digit(d[i - start]));
                assert(!is_u64_numeral(s));
            }
            return hash_seed(val);
        }
        let digit = (b - 48) as u64;
        if acc > (u64::MAX - digit) / 10 {
            proof {
                assert(d.take(i + 1 - start).drop_last() =~= d.take(i - start));
                assert(d.take(i + 1 - start).last() == s[i as int]);
                assert(dec_value(d.take(i + 1 - start)) == acc * 10 + digit);
                assert(acc * 10 + digit > u64::MAX) by {
                    assert(acc >= (u64::MAX - digit) / 10 + 1);
                    assert(((u64::MAX - digit) / 10 + 1) * 10 > u64::MAX - digit);
                }
                if is_u64_numeral(s) {
                    lemma_dec_value_monotone(d, i + 1 - start);
                }
            }
            return hash_seed(val);
        }
        proof {
            assert(d.take(i + 1 - start).drop_last() =~= d.take(i - start));
            assert(d.take(i + 1 - start).last() == s[i as int]);
            assert(acc * 10 + digit <= u64::MAX) by {
                assert(acc <= (u64::MAX - digit) / 10);
                assert(((u64::MAX - digit) / 10) * 10 <= u64::MAX - digit);
            }
        }
        acc = acc * 10 + digit;
        i = i + 1;
    }
    proof {
        assert(d.take(n - start) =~= d);
        assert(forall|j: int| 0 <= j < d.len() ==> is_dec_digit(#[trigger] d[j]));
        assert(is_u64_numeral(s));
    }
    acc
}

} // verus!
