use vstd::prelude::*;

use crate::error::ReconcileError;
use crate::word::{be_value, Word, WORD_BYTES};

verus! {

/// Most hexadecimal digits that a 256-bit word has.
pub const WORD_HEX_DIGITS: usize = 64;

/// Whether a character is a hexadecimal digit, in either case.
pub open spec fn is_hex_digit(c: char) -> bool {
    ('0' <= c && c <= '9') || ('a' <= c && c <= 'f') || ('A' <= c && c <= 'F')
}

/// The value of a hexadecimal digit.
pub open spec fn hex_digit_value(c: char) -> u8 {
    if '0' <= c && c <= '9' {
        (c as u32 - '0' as u32) as u8
    } else if 'a' <= c && c <= 'f' {
        (c as u32 - 'a' as u32 + 10) as u8
    } else {
        (c as u32 - 'A' as u32 + 10) as u8
    }
}

/// A hexadecimal word: `0x` or `0X`, then one to 64 hexadecimal digits.
pub open spec fn is_hex_word(s: Seq<char>) -> bool {
    &&& 3 <= s.len() <= 2 + WORD_HEX_DIGITS
    &&& s[0] == '0'
    &&& (s[1] == 'x' || s[1] == 'X')
    &&& forall|i: int| 2 <= i < s.len() ==> is_hex_digit(#[trigger] s[i])
}

/// Digit `j` of the 64 digits of a hexadecimal word, zeros filling in on the
/// left.
pub open spec fn padded_digit(s: Seq<char>, j: int) -> u8 {
    let pad = WORD_HEX_DIGITS - (s.len() - 2);
    if j < pad {
        0
    } else {
        hex_digit_value(s[j - pad + 2])
    }
}

/// The 32 big-endian bytes of a hexadecimal word: byte `i` holds digits `2i`
/// and `2i + 1` of its 64 digits.
pub open spec fn hex_word_bytes(s: Seq<char>) -> Seq<u8> {
    Seq::new(
        WORD_BYTES as nat,
        |i: int| (16 * padded_digit(s, 2 * i) + padded_digit(s, 2 * i + 1)) as u8,
    )
}

/// The value of a string of hexadecimal digits, most significant first.
pub open spec fn hex_value(ds: Seq<char>) -> nat
    decreases ds.len(),
{
    if ds.len() == 0 {
        0
    } else {
        hex_value(ds.drop_last()) * 16 + hex_digit_value(ds.last()) as nat
    }
}

/// The value of the first `m` of the 64 digits of a hexadecimal word.
pub open spec fn padded_value(s: Seq<char>, m: nat) -> nat
    decreases m,
{
    if m == 0 {
        0
    } else {
        padded_value(s, (m - 1) as nat) * 16 + padded_digit(s, m - 1) as nat
    }
}

proof fn lemma_padded_digit_small(s: Seq<char>, j: int)
    requires
        is_hex_word(s),
        0 <= j < WORD_HEX_DIGITS,
    ensures
        padded_digit(s, j) < 16,
{
    let pad = WORD_HEX_DIGITS - (s.len() - 2);
    if j >= pad {
        assert(is_hex_digit(s[j - pad + 2]));
    }
}

proof fn lemma_padded_value_digits(s: Seq<char>, m: nat)
    requires
        is_hex_word(s),
        m <= WORD_HEX_DIGITS,
    ensures
        m <= WORD_HEX_DIGITS - (s.len() - 2) ==> padded_value(s, m) == 0,
        m >= WORD_HEX_DIGITS - (s.len() - 2) ==> padded_value(s, m) == hex_value(
            s.subrange(2, 2 + m - (WORD_HEX_DIGITS - (s.len() - 2))),
        ),
    decreases m,
{
    let pad = WORD_HEX_DIGITS - (s.len() - 2);
    if m > 0 {
        lemma_padded_value_digits(s, (m - 1) as nat);
        if m > pad {
            let ds = s.subrange(2, 2 + m - pad);
            assert(ds.drop_last() =~= s.subrange(2, 2 + (m - 1) - pad));
            assert(ds.last() == s[m - 1 - pad + 2]);
            if m - 1 == pad {
                assert(s.subrange(2, 2 + (m - 1) - pad) =~= Seq::<char>::empty());
            }
        }
    } else {
        if pad == 0 {
            assert(s.subrange(2, 2) =~= Seq::<char>::empty());
        }
    }
}

proof fn lemma_hex_word_bytes_prefix(s: Seq<char>, k: nat)
    requires
        is_hex_word(s),
        k <= WORD_BYTES,
    ensures
        be_value(hex_word_bytes(s).take(k as int)) == padded_value(s, 2 * k),
    decreases k,
{
    let bytes = hex_word_bytes(s);
    if k == 0 {
        assert(bytes.take(0) =~= Seq::<u8>::empty());
    } else {
        let i = k - 1;
        lemma_hex_word_bytes_prefix(s, i as nat);
        assert(bytes.take(k as int).drop_last() =~= bytes.take(i));
        lemma_padded_digit_small(s, 2 * i);
        lemma_padded_digit_small(s, 2 * i + 1);
        let hi = padded_digit(s, 2 * i) as nat;
        let lo = padded_digit(s, 2 * i + 1) as nat;
        assert(bytes[i] as nat == 16 * hi + lo);
        let v = padded_value(s, 2 * i as nat);
        assert(padded_value(s, (2 * i + 1) as nat) == v * 16 + hi);
        assert(padded_value(s, 2 * k) == (v * 16 + hi) * 16 + lo);
        assert((v * 16 + hi) * 16 + lo == v * 256 + (16 * hi + lo)) by (nonlinear_arith);
    }
}

/// The bytes read from a hexadecimal word denote the number that its digits
/// write.
pub proof fn lemma_hex_word_value(s: Seq<char>)
    requires
        is_hex_word(s),
    ensures
        be_value(hex_word_bytes(s)) == hex_value(s.skip(2)),
{
    lemma_hex_word_bytes_prefix(s, WORD_BYTES as nat);
    assert(hex_word_bytes(s).take(32) =~= hex_word_bytes(s));
    lemma_padded_value_digits(s, WORD_HEX_DIGITS as nat);
    assert(s.subrange(2, s.len() as int) =~= s.skip(2));
}

fn digit_value(c: char) -> (r: u8)
    requires
        is_hex_digit(c),
    ensures
        r == hex_digit_value(c),
        r < 16,
{
    if '0' <= c && c <= '9' {
        (c as u32 - '0' as u32) as u8
    } else if 'a' <= c && c <= 'f' {
        (c as u32 - 'a' as u32 + 10) as u8
    } else {
        (c as u32 - 'A' as u32 + 10) as u8
    }
}

fn is_digit(c: char) -> (r: bool)
    ensures
        r == is_hex_digit(c),
{
    ('0' <= c && c <= '9') || ('a' <= c && c <= 'f') || ('A' <= c && c <= 'F')
}

/// Reads a `0x`-prefixed hexadecimal number of at most 64 digits as a 256-bit
/// word; anything else gives `InvalidInput`.
pub fn parse_hex_word(s: &str) -> (r: Result<Word, ReconcileError>)
    ensures
        r is Ok <==> is_hex_word(s@),
        r matches Ok(w) ==> w.wf() && w@ == hex_word_bytes(s@) && w.value() == hex_value(
            s@.skip(2),
        ),
        r matches Err(e) ==> e == ReconcileError::InvalidInput,
{
    let n = s.unicode_len();
    if n < 3 || n > 2 + WORD_HEX_DIGITS {
        return Err(ReconcileError::InvalidInput);
    }
    if s.get_char(0) != '0' {
        return Err(ReconcileError::InvalidInput);
    }
    let x = s.get_char(1);
    if x != 'x' && x != 'X' {
        return Err(ReconcileError::InvalidInput);
    }
    let mut i: usize = 2;
    while i < n
        invariant
            n == s@.len(),
            2 <= i <= n,
            forall|k: int| 2 <= k < i ==> is_hex_digit(#[trigger] s@[k]),
        decreases n - i,
    {
        if !is_digit(s.get_char(i)) {
            return Err(ReconcileError::InvalidInput);
        }
        i = i + 1;
    }
    let pad: usize = WORD_HEX_DIGITS - (n - 2);
    let mut bytes: Vec<u8> = Vec::new();
    let mut b: usize = 0;
    while b < WORD_BYTES
        invariant
            n == s@.len(),
            is_hex_word(s@),
            pad == WORD_HEX_DIGITS - (n - 2),
            b <= WORD_BYTES,
            bytes@.len() == b,
            forall|k: int| 0 <= k < b ==> bytes@[k] == #[trigger] hex_word_bytes(s@)[k],
        decreases WORD_BYTES - b,
    {
        let j = 2 * b;
        let hi: u8 = if j < pad {
            0
        } else {
            digit_value(s.get_char(j - pad + 2))
        };
        let lo: u8 = if j + 1 < pad {
            0
        } else {
            digit_value(s.get_char(j + 1 - pad + 2))
        };
        bytes.push(16 * hi + lo);
        b = b + 1;
    }
    assert(bytes@ =~= hex_word_bytes(s@));
    proof {
        lemma_hex_word_value(s@);
    }
    Ok(Word { bytes })
}

} // verus!
