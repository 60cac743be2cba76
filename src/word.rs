use vstd::arithmetic::div_mod::{lemma_basic_div, lemma_div_denominator, lemma_fundamental_div_mod};
use vstd::arithmetic::power2::{lemma2_to64, lemma_pow2_adds, pow2};
use vstd::bits::{lemma_low_bits_mask_values, lemma_u64_low_bits_mask_is_mod, lemma_u64_shr_is_div};
use vstd::prelude::*;

verus! {

/// Number of bytes in a word of the settlement ledger.
pub const WORD_BYTES: usize = 32;

/// `256` raised to the power `n`.
pub open spec fn pow256(n: nat) -> nat
    decreases n,
{
    if n == 0 {
        1
    } else {
        256 * pow256((n - 1) as nat)
    }
}

/// The unsigned integer that a big-endian byte string denotes.
pub open spec fn be_value(s: Seq<u8>) -> nat
    decreases s.len(),
{
    if s.len() == 0 {
        0
    } else {
        be_value(s.drop_last()) * 256 + s.last() as nat
    }
}

/// Byte `i` (counted from the most significant end) of the 32-byte big-endian
/// form of a 64-bit integer.
pub open spec fn u64_byte(n: u64, i: int) -> u8 {
    if i < 24 {
        0
    } else {
        ((n >> ((8 * (31 - i)) as u64)) & 0xff) as u8
    }
}

/// The 32-byte big-endian form of a 64-bit integer.
pub open spec fn u64_word(n: u64) -> Seq<u8> {
    Seq::new(32, |i: int| u64_byte(n, i))
}

/// A 256-bit word held as 32 big-endian bytes.
pub struct Word {
    pub bytes: Vec<u8>,
}

impl View for Word {
    type V = Seq<u8>;

    open spec fn view(&self) -> Seq<u8> {
        self.bytes@
    }
}

impl Word {
    /// A word holds exactly 32 bytes.
    pub open spec fn wf(&self) -> bool {
        self.bytes@.len() == WORD_BYTES
    }

    /// The integer the word denotes.
    pub open spec fn value(&self) -> nat {
        be_value(self@)
    }

    /// The word made of the given bytes, if there are exactly 32 of them.
    pub fn from_bytes(bytes: Vec<u8>) -> (r: Option<Word>)
        ensures
            bytes@.len() == WORD_BYTES <==> r is Some,
            r matches Some(w) ==> w@ == bytes@ && w.wf(),
    {
        if bytes.len() == WORD_BYTES {
            Some(Word { bytes })
        } else {
            None
        }
    }

    /// The word whose 32 bytes are all zero.
    pub fn zero() -> (r: Word)
        ensures
            r.wf(),
            r@ == Seq::new(32, |i: int| 0u8),
    {
        let mut bytes: Vec<u8> = Vec::new();
        let mut i: usize = 0;
        while i < WORD_BYTES
            invariant
                i <= WORD_BYTES,
                bytes@ == Seq::new(i as nat, |k: int| 0u8),
            decreases WORD_BYTES - i,
        {
            bytes.push(0u8);
            i = i + 1;
        }
        Word { bytes }
    }

    /// The 32-byte big-endian form of a 64-bit integer.
    pub fn from_u64(n: u64) -> (r: Word)
        ensures
            r.wf(),
            r@ == u64_word(n),
            r.value() == n,
    {
        let mut bytes: Vec<u8> = Vec::new();
        let mut i: usize = 0;
        while i < WORD_BYTES
            invariant
                i <= WORD_BYTES,
                bytes@.len() == i,
                forall|k: int| 0 <= k < i ==> bytes@[k] == u64_byte(n, k),
            decreases WORD_BYTES - i,
        {
            if i < 24 {
                bytes.push(0u8);
            } else {
                let shift: u64 = (8 * (31 - i)) as u64;
                let b: u8 = ((n >> shift) & 0xff) as u8;
                bytes.push(b);
            }
            i = i + 1;
        }
        assert(bytes@ =~= u64_word(n));
        proof {
            lemma_u64_word_value(n);
        }
        Word { bytes }
    }

    /// Whether every byte of the word is zero.
    pub fn is_zero(&self) -> (r: bool)
        requires
            self.wf(),
        ensures
            r == (self.value() == 0),
    {
        let mut i: usize = 0;
        while i < WORD_BYTES
            invariant
                self.wf(),
                i <= WORD_BYTES,
                forall|k: int| 0 <= k < i ==> self@[k] == 0,
            decreases WORD_BYTES - i,
        {
            if self.bytes[i] != 0 {
                proof {
                    lemma_nonzero_byte_value(self@, i as int);
                }
                return false;
            }
            i = i + 1;
        }
        proof {
            lemma_zero_bytes_value(self@);
        }
        true
    }

    /// A copy of the word.
    pub fn copy(&self) -> (r: Word)
        ensures
            r@ == self@,
    {
        Word { bytes: self.bytes.clone() }
    }
}

/// A byte string of zeros denotes zero.
pub proof fn lemma_zero_bytes_value(s: Seq<u8>)
    requires
        forall|k: int| 0 <= k < s.len() ==> s[k] == 0,
    ensures
        be_value(s) == 0,
    decreases s.len(),
{
    if s.len() > 0 {
        lemma_zero_bytes_value(s.drop_last());
    }
}

/// A byte string with a nonzero byte denotes a nonzero integer.
pub proof fn lemma_nonzero_byte_value(s: Seq<u8>, i: int)
    requires
        0 <= i < s.len(),
        s[i] != 0,
    ensures
        be_value(s) > 0,
    decreases s.len(),
{
    if i < s.len() - 1 {
        lemma_nonzero_byte_value(s.drop_last(), i);
    }
}

/// Every power of 256 is positive.
pub proof fn lemma_pow256_positive(n: nat)
    ensures
        pow256(n) > 0,
    decreases n,
{
    if n > 0 {
        lemma_pow256_positive((n - 1) as nat);
    }
}

/// A big-endian byte string of length `n` denotes less than `256^n`.
pub proof fn lemma_be_value_bound(s: Seq<u8>)
    ensures
        be_value(s) < pow256(s.len()),
    decreases s.len(),
{
    if s.len() > 0 {
        lemma_be_value_bound(s.drop_last());
        let a = be_value(s.drop_last());
        let p = pow256((s.len() - 1) as nat);
        assert(a + 1 <= p);
        assert(a * 256 + 256 <= p * 256) by (nonlinear_arith)
            requires
                a + 1 <= p,
        ;
    }
}

/// The value of two byte strings put one after the other.
pub proof fn lemma_be_value_concat(a: Seq<u8>, b: Seq<u8>)
    ensures
        be_value(a + b) == be_value(a) * pow256(b.len()) + be_value(b),
    decreases b.len(),
{
    if b.len() == 0 {
        assert(a + b =~= a);
        assert(pow256(0) == 1);
        assert(be_value(b) == 0);
    } else {
        assert((a + b).drop_last() =~= a + b.drop_last());
        assert((a + b).last() == b.last());
        lemma_be_value_concat(a, b.drop_last());
        let x = be_value(a);
        let p = pow256((b.len() - 1) as nat);
        let y = be_value(b.drop_last());
        assert((x * p + y) * 256 == x * (256 * p) + y * 256) by (nonlinear_arith);
        assert(pow256(b.len()) == 256 * p);
        assert(x * pow256(b.len()) == x * (256 * p));
        assert(be_value(a + b) == be_value(a + b.drop_last()) * 256 + b.last() as nat);
        assert(be_value(b) == y * 256 + b.last() as nat);
    }
}

/// `2^(8k)` is `256^k`.
proof fn lemma_pow2_bytes(k: nat)
    ensures
        pow2(8 * k) == pow256(k),
    decreases k,
{
    if k == 0 {
        lemma2_to64();
    } else {
        lemma_pow2_bytes((k - 1) as nat);
        lemma_pow2_adds(8, 8 * (k - 1) as nat);
        lemma2_to64();
        assert(8 + 8 * (k - 1) as nat == 8 * k);
    }
}

/// Byte `i` of the word of a 64-bit integer is digit `31 - i` of the integer in
/// base 256.
proof fn lemma_u64_byte_digit(n: u64, i: int)
    requires
        24 <= i < 32,
    ensures
        u64_byte(n, i) as nat == (n as nat / pow256((31 - i) as nat)) % 256,
{
    let s = (8 * (31 - i)) as u64;
    lemma_u64_shr_is_div(n, s);
    lemma_pow2_bytes((31 - i) as nat);
    let q = n >> s;
    lemma_u64_low_bits_mask_is_mod(q, 8);
    lemma_low_bits_mask_values();
    lemma2_to64();
}

proof fn lemma_u64_word_prefix(n: u64, m: nat)
    requires
        24 <= m <= 32,
    ensures
        be_value(u64_word(n).take(m as int)) == n as nat / pow256((32 - m) as nat),
    decreases m,
{
    let w = u64_word(n);
    if m == 24 {
        lemma_zero_bytes_value(w.take(24));
        reveal_with_fuel(pow256, 9);
        assert(pow256(8) == 0x1_0000_0000_0000_0000);
        lemma_basic_div(n as int, pow256(8) as int);
        assert(be_value(w.take(24)) == 0);
    } else {
        lemma_u64_word_prefix(n, (m - 1) as nat);
        assert(w.take(m as int).drop_last() =~= w.take(m - 1));
        lemma_u64_byte_digit(n, m - 1);
        let c = pow256((32 - m) as nat);
        lemma_pow256_positive((32 - m) as nat);
        let q = n as nat / c;
        lemma_div_denominator(n as int, c as int, 256);
        lemma_fundamental_div_mod(q as int, 256);
        assert(pow256((32 - (m - 1)) as nat) == c * 256);
        let prev = be_value(w.take(m - 1));
        assert(prev == q / 256);
        assert(w.take(m as int).last() == u64_byte(n, m - 1));
        assert(be_value(w.take(m as int)) == prev * 256 + u64_byte(n, m - 1) as nat);
        assert(q == 256 * (q / 256) + q % 256);
    }
}

/// The word of a 64-bit integer denotes that integer.
pub proof fn lemma_u64_word_value(n: u64)
    ensures
        be_value(u64_word(n)) == n,
{
    lemma_u64_word_prefix(n, 32);
    assert(u64_word(n).take(32) =~= u64_word(n));
    assert(pow256(0) == 1);
    assert(n as nat / 1 == n as nat);
}

} // verus!
