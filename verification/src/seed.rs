//! Seeds: a user-facing string resolved once to a 64-bit hash.
//!
//! The canonical form `0x` followed by sixteen hexadecimal digits parses
//! directly to the hash; any other string is hashed by a content hash (the
//! low eight bytes of its MD5 digest). The hash is the sole determinism
//! source of the engine.

use vstd::prelude::*;
use vstd::string::{StrSliceExecFns, StringExecFns};
use crate::text::{digit_char, push_hex_fixed, spec_hex_fixed};

verus! {

/// The low eight bytes of the MD5 digest of a text, read as a little-endian
/// word: a pure function of the text.
pub uninterp spec fn md5_lower64(text: Seq<char>) -> u64;

/// Relies on `md5::compute`: the digest is a pure function of the input
/// bytes (and hence of the text), and it has at least eight bytes.
#[verifier::external_body]
fn md5_lower64_exec(s: &str) -> (r: u64)
    ensures
        r == md5_lower64(s@),
{
    let d = md5::compute(s.as_bytes());
    u64::from_le_bytes([d.0[0], d.0[1], d.0[2], d.0[3], d.0[4], d.0[5], d.0[6], d.0[7]])
}

/// The numeric value of one hexadecimal digit character (either case).
pub open spec fn hex_digit_val(c: char) -> int {
    let u = c as int;
    if 48 <= u <= 57 {
        u - 48
    } else if 97 <= u <= 102 {
        u - 87
    } else {
        u - 55
    }
}

/// Whether a character is a hexadecimal digit (either case).
pub open spec fn is_hex_digit(c: char) -> bool {
    let u = c as int;
    (48 <= u <= 57) || (97 <= u <= 102) || (65 <= u <= 70)
}

/// The value of a sequence of hexadecimal digits, most significant first.
pub open spec fn hex_seq_val(s: Seq<char>) -> int
    decreases s.len(),
{
    if s.len() == 0 {
        0
    } else {
        hex_seq_val(s.drop_last()) * 16 + hex_digit_val(s.last())
    }
}

/// Whether a text is the canonical seed form: `0x` and sixteen hexadecimal
/// digits.
pub open spec fn is_canonical_hex(s: Seq<char>) -> bool {
    &&& s.len() == 18
    &&& s[0] == '0'
    &&& s[1] == 'x'
    &&& forall|i: int| 2 <= i < 18 ==> is_hex_digit(#[trigger] s[i])
}

/// The hash a seed text resolves to: the canonical hexadecimal form parses
/// directly, anything else takes its content hash.
pub open spec fn spec_hash_seed(s: Seq<char>) -> u64 {
    if is_canonical_hex(s) {
        hex_seq_val(s.subrange(2, 18)) as u64
    } else {
        md5_lower64(s)
    }
}

/// Resolve a seed text to its hash.
fn hash_seed(s: &str) -> (r: u64)
    ensures
        r == spec_hash_seed(s@),
{
    let n = s.unicode_len();
    if n != 18 {
        return md5_lower64_exec(s);
    }
    if s.get_char(0) != '0' || s.get_char(1) != 'x' {
        return md5_lower64_exec(s);
    }
    let mut acc: u64 = 0;
    let mut i: usize = 2;
    while i < 18
        invariant
            2 <= i <= 18,
            s@.len() == 18,
            s@[0] == '0',
            s@[1] == 'x',
            forall|j: int| 2 <= j < i ==> is_hex_digit(#[trigger] s@[j]),
            acc as int == hex_seq_val(s@.subrange(2, i as int)),
        decreases 18 - i,
    {
        let c = s.get_char(i);
        let u = c as u32;
        let d: u64 = if 48 <= u && u <= 57 {
            (u - 48) as u64
        } else if 97 <= u && u <= 102 {
            (u - 87) as u64
        } else if 65 <= u && u <= 70 {
            (u - 55) as u64
        } else {
            return md5_lower64_exec(s);
        };
        proof {
            let pre = s@.subrange(2, i as int);
            let post = s@.subrange(2, i as int + 1);
            assert(forall|j: int| 0 <= j < pre.len() ==> is_hex_digit(#[trigger] pre[j]));
            lemma_hex_seq_val_bound(pre);
            lemma_pow16_mono((i - 2) as nat, 15);
            lemma_pow16_values();
            assert(post.drop_last() =~= pre);
            assert(post.last() == c);
        }
        acc = acc * 16 + d;
        i = i + 1;
    }
    proof {
        let digits = s@.subrange(2, 18);
        assert(forall|j: int| 0 <= j < digits.len() ==> is_hex_digit(#[trigger] digits[j]));
        lemma_hex_seq_val_bound(digits);
        lemma_pow16_values();
        assert(is_canonical_hex(s@));
    }
    acc
}

/// Powers of sixteen grow with the exponent.
proof fn lemma_pow16_mono(a: nat, b: nat)
    requires
        a <= b,
    ensures
        pow16(a) <= pow16(b),
    decreases b,
{
    if a < b {
        lemma_pow16_mono(a, (b - 1) as nat);
        lemma_pow16_pos((b - 1) as nat);
    }
}

/// The fifteenth and sixteenth powers of sixteen, as literals.
proof fn lemma_pow16_values()
    ensures
        pow16(15) == 0x1000_0000_0000_0000,
        pow16(16) == 0x1_0000_0000_0000_0000,
{
    reveal_with_fuel(pow16, 17);
}

/// A sequence of hexadecimal digits has a value below sixteen to its length.
proof fn lemma_hex_seq_val_bound(s: Seq<char>)
    requires
        forall|i: int| 0 <= i < s.len() ==> is_hex_digit(#[trigger] s[i]),
    ensures
        0 <= hex_seq_val(s) < pow16(s.len() as nat),
    decreases s.len(),
{
    if s.len() == 0 {
    } else {
        lemma_hex_seq_val_bound(s.drop_last());
        let h = hex_seq_val(s.drop_last());
        let p = pow16((s.len() - 1) as nat);
        assert(h * 16 + hex_digit_val(s.last()) < p * 16) by (nonlinear_arith)
            requires
                0 <= h,
                h < p,
                hex_digit_val(s.last()) < 16,
        ;
    }
}

/// Sixteen to the `w`-th power.
pub open spec fn pow16(w: nat) -> int
    decreases w,
{
    if w == 0 {
        1
    } else {
        16 * pow16((w - 1) as nat)
    }
}

/// Parsing the fixed-width hexadecimal form of a value recovers the value,
/// modulo sixteen to the width.
proof fn lemma_hex_round_trip(n: nat, w: nat)
    ensures
        spec_hex_fixed(n, w).len() == w,
        forall|i: int|
            0 <= i < w ==> is_hex_digit(#[trigger] spec_hex_fixed(n, w)[i]),
        hex_seq_val(spec_hex_fixed(n, w)) == n % (pow16(w) as nat),
    decreases w,
{
    if w == 0 {
        assert(n % 1nat == 0);
    } else {
        lemma_hex_round_trip(n / 16, (w - 1) as nat);
        let s = spec_hex_fixed(n, w);
        let t = spec_hex_fixed(n / 16, (w - 1) as nat);
        assert(s =~= t + seq![digit_char((n % 16) as int)]);
        assert(s.drop_last() =~= t);
        assert(is_hex_digit(digit_char((n % 16) as int)) && hex_digit_val(
            digit_char((n % 16) as int),
        ) == n % 16);
        let p1 = pow16((w - 1) as nat);
        assert(p1 >= 1) by {
            lemma_pow16_pos((w - 1) as nat);
        }
        vstd::arithmetic::div_mod::lemma_breakdown(n as int, 16, p1);
        assert(16 * ((n as int / 16) % p1) == ((n / 16) % (p1 as nat)) * 16);
    }
}

/// Powers of sixteen are positive.
proof fn lemma_pow16_pos(w: nat)
    ensures
        pow16(w) >= 1,
    decreases w,
{
    if w > 0 {
        lemma_pow16_pos((w - 1) as nat);
    }
}

/// A seed: the user's text together with the hash it resolves to.
#[derive(Debug, Clone)]
pub struct Seed {
    s: String,
    n: u64,
}

/// The hash shown in its canonical form.
#[derive(Debug, Clone, Copy, PartialEq, Eq, Structural)]
pub struct SeedHash(pub u64);

impl Seed {
    /// The user-facing text.
    pub closed spec fn text(self) -> Seq<char> {
        self.s@
    }

    /// The resolved hash.
    pub closed spec fn hash(self) -> u64 {
        self.n
    }

    /// The stored hash is the one the text resolves to.
    pub open spec fn wf(self) -> bool {
        self.hash() == spec_hash_seed(self.text())
    }

    /// Resolve a seed text.
    pub fn from_str(seed: String) -> (r: Seed)
        ensures
            r.wf(),
            r.text() == seed@,
            r.hash() == spec_hash_seed(seed@),
    {
        let n = hash_seed(seed.as_str());
        Seed { s: seed, n }
    }

    /// Take a hash directly; the text becomes its canonical form.
    pub fn from_hash(hash: u64) -> (r: Seed)
        ensures
            r.wf(),
            r.hash() == hash,
            r.text() == seq!['0', 'x'] + spec_hex_fixed(hash as nat, 16),
    {
        let s = SeedHash(hash).to_hex_string();
        proof {
            lemma_hex_round_trip(hash as nat, 16);
            lemma_pow16_values();
            let t = seq!['0', 'x'] + spec_hex_fixed(hash as nat, 16);
            assert(t.subrange(2, 18) =~= spec_hex_fixed(hash as nat, 16));
            assert(is_canonical_hex(t));
            vstd::arithmetic::div_mod::lemma_small_mod(hash as nat, pow16(16) as nat);
            assert(hash as nat % (pow16(16) as nat) == hash as nat);
            assert(hex_seq_val(t.subrange(2, 18)) == hash);
        }
        Seed { s, n: hash }
    }

    /// The user-facing text.
    pub fn as_str(&self) -> (r: &str)
        ensures
            r@ == self.text(),
    {
        self.s.as_str()
    }

    /// The resolved hash.
    pub fn as_hash(&self) -> (r: u64)
        ensures
            r == self.hash(),
    {
        self.n
    }

    /// The hash, ready to be shown in its canonical form.
    pub fn fmt_hash(&self) -> (r: SeedHash)
        ensures
            r.0 == self.hash(),
    {
        SeedHash(self.n)
    }
}

impl SeedHash {
    /// The canonical text of the hash: `0x` and sixteen hexadecimal digits.
    pub fn to_hex_string(&self) -> (r: String)
        ensures
            r@ == seq!['0', 'x'] + spec_hex_fixed(self.0 as nat, 16),
    {
        let mut s = String::new();
        proof {
            reveal_strlit("0x");
            assert("0x"@ =~= seq!['0', 'x']);
        }
        s.append("0x");
        push_hex_fixed(&mut s, self.0, 16);
        s
    }
}

} // verus!
