use vstd::prelude::*;

use vstd::arithmetic::div_mod::{
    lemma_fundamental_div_mod_converse_div, lemma_fundamental_div_mod_converse_mod,
};

use crate::error::ReconcileError;
use crate::word::{
    be_value, lemma_be_value_bound, lemma_be_value_concat, lemma_nonzero_byte_value,
    lemma_pow256_positive, lemma_zero_bytes_value, pow256, Word, WORD_BYTES,
};

verus! {

/// `2^256`, the number of distinct 256-bit words.
pub open spec fn word_modulus() -> nat {
    pow256(32)
}

/// The 32 big-endian bytes of the prime that bounds the L2 field,
/// `2^251 + 17 * 2^192 + 1`.
pub open spec fn stark_prime_bytes() -> Seq<u8> {
    seq![
        0x08u8, 0, 0, 0, 0, 0, 0, 0x11,
        0, 0, 0, 0, 0, 0, 0, 0,
        0, 0, 0, 0, 0, 0, 0, 0,
        0, 0, 0, 0, 0, 0, 0, 0x01,
    ]
}

/// The prime that bounds the L2 field: a value is a field element when it is
/// below it.
pub open spec fn stark_prime() -> nat {
    be_value(stark_prime_bytes())
}

/// The amount that a low and a high half stand for: `(high << 256) | low`.
pub open spec fn combined_value(low: nat, high: nat) -> nat {
    high * word_modulus() + low
}

fn stark_prime_word() -> (r: Vec<u8>)
    ensures
        r@ == stark_prime_bytes(),
{
    let r: Vec<u8> = vec![
        0x08u8, 0, 0, 0, 0, 0, 0, 0x11,
        0, 0, 0, 0, 0, 0, 0, 0,
        0, 0, 0, 0, 0, 0, 0, 0,
        0, 0, 0, 0, 0, 0, 0, 0x01,
    ];
    assert(r@ =~= stark_prime_bytes());
    r
}

/// Combines the two halves of a withdrawal amount into one 512-bit big-endian
/// integer, the high half first; no bit of either half is lost.
pub fn combine_amount(low: &Word, high: &Word) -> (r: Vec<u8>)
    requires
        low.wf(),
        high.wf(),
    ensures
        r@ == high@ + low@,
        be_value(r@) == combined_value(low.value(), high.value()),
{
    let mut out: Vec<u8> = Vec::new();
    let mut i: usize = 0;
    while i < WORD_BYTES
        invariant
            high.wf(),
            i <= WORD_BYTES,
            out@ == high@.take(i as int),
        decreases WORD_BYTES - i,
    {
        out.push(high.bytes[i]);
        i = i + 1;
        assert(out@ =~= high@.take(i as int));
    }
    let mut j: usize = 0;
    while j < WORD_BYTES
        invariant
            high.wf(),
            low.wf(),
            j <= WORD_BYTES,
            out@ == high@ + low@.take(j as int),
        decreases WORD_BYTES - j,
    {
        out.push(low.bytes[j]);
        j = j + 1;
        assert(out@ =~= high@ + low@.take(j as int));
    }
    proof {
        assert(high@.take(32) =~= high@);
        assert(low@.take(32) =~= low@);
        lemma_be_value_concat(high@, low@);
    }
    out
}

/// Combining keeps each half in its place, as `(high << 256) | low` does: the
/// amount's upper 256 bits are `high` and its lower 256 bits are `low`.
pub proof fn lemma_combined_halves(low: Seq<u8>, high: Seq<u8>)
    requires
        low.len() == WORD_BYTES,
        high.len() == WORD_BYTES,
    ensures
        be_value(high + low) == combined_value(be_value(low), be_value(high)),
        combined_value(be_value(low), be_value(high)) / word_modulus() == be_value(high),
        combined_value(be_value(low), be_value(high)) % word_modulus() == be_value(low),
{
    lemma_be_value_concat(high, low);
    lemma_be_value_bound(low);
    let m = word_modulus() as int;
    let x = combined_value(be_value(low), be_value(high)) as int;
    lemma_fundamental_div_mod_converse_div(x, m, be_value(high) as int, be_value(low) as int);
    lemma_fundamental_div_mod_converse_mod(x, m, be_value(high) as int, be_value(low) as int);
}

/// Where two big-endian strings of one length first differ, the smaller byte
/// marks the smaller value.
pub proof fn lemma_be_value_lt_at(a: Seq<u8>, b: Seq<u8>, i: int)
    requires
        a.len() == b.len(),
        0 <= i < a.len(),
        a.take(i) == b.take(i),
        a[i] < b[i],
    ensures
        be_value(a) < be_value(b),
{
    let n = a.len();
    let ha = a.take(i + 1);
    let hb = b.take(i + 1);
    let ra = a.skip(i + 1);
    let rb = b.skip(i + 1);
    assert(a =~= ha + ra);
    assert(b =~= hb + rb);
    assert(ha.drop_last() =~= a.take(i));
    assert(hb.drop_last() =~= b.take(i));
    lemma_be_value_concat(ha, ra);
    lemma_be_value_concat(hb, rb);
    lemma_be_value_bound(ra);
    let p = pow256(ra.len());
    let x = be_value(ha);
    let y = be_value(hb);
    assert(x + 1 <= y);
    assert(x * p + be_value(ra) < y * p + be_value(rb)) by (nonlinear_arith)
        requires
            x + 1 <= y,
            be_value(ra) < p,
    ;
}

/// Whether one big-endian byte string denotes less than another of equal
/// length.
fn bytes_lt(a: &Vec<u8>, b: &Vec<u8>) -> (r: bool)
    requires
        a@.len() == b@.len(),
    ensures
        r == (be_value(a@) < be_value(b@)),
{
    let mut i: usize = 0;
    while i < a.len()
        invariant
            a@.len() == b@.len(),
            i <= a@.len(),
            a@.take(i as int) == b@.take(i as int),
        decreases a@.len() - i,
    {
        if a[i] < b[i] {
            proof {
                lemma_be_value_lt_at(a@, b@, i as int);
            }
            return true;
        }
        if a[i] > b[i] {
            proof {
                lemma_be_value_lt_at(b@, a@, i as int);
            }
            return false;
        }
        i = i + 1;
        assert(a@.take(i as int) =~= b@.take(i as int)) by {
            assert(a@.take(i as int) =~= a@.take(i - 1).push(a@[i - 1]));
            assert(b@.take(i as int) =~= b@.take(i - 1).push(b@[i - 1]));
        }
    }
    assert(a@.take(i as int) =~= a@);
    assert(b@.take(i as int) =~= b@);
    false
}

/// The field element that a 512-bit big-endian amount denotes, or
/// `AmountOutOfRange` when the amount is not below the field's prime; an amount
/// is never reduced modulo the prime.
pub fn amount_to_felt(total: &Vec<u8>) -> (r: Result<Word, ReconcileError>)
    requires
        total@.len() == 2 * WORD_BYTES,
    ensures
        r is Ok <==> be_value(total@) < stark_prime(),
        r matches Ok(w) ==> w.wf() && w.value() == be_value(total@),
        r matches Err(e) ==> e == ReconcileError::AmountOutOfRange,
{
    let ghost hi = total@.take(32);
    let ghost lo = total@.skip(32);
    proof {
        assert(total@ =~= hi + lo);
        lemma_be_value_concat(hi, lo);
        lemma_be_value_bound(stark_prime_bytes());
        lemma_pow256_positive(32);
    }
    let mut i: usize = 0;
    while i < WORD_BYTES
        invariant
            total@.len() == 64,
            hi == total@.take(32),
            lo == total@.skip(32),
            be_value(total@) == be_value(hi) * pow256(32) + be_value(lo),
            stark_prime() < pow256(32),
            i <= WORD_BYTES,
            forall|k: int| 0 <= k < i ==> total@[k] == 0,
        decreases WORD_BYTES - i,
    {
        if total[i] != 0 {
            proof {
                assert(hi[i as int] != 0);
                lemma_nonzero_byte_value(hi, i as int);
                lemma_pow256_positive(32);
                let h = be_value(hi);
                let m = pow256(32);
                assert(h * m + be_value(lo) >= m) by (nonlinear_arith)
                    requires
                        h >= 1,
                        m > 0,
                ;
            }
            return Err(ReconcileError::AmountOutOfRange);
        }
        i = i + 1;
    }
    let mut low: Vec<u8> = Vec::new();
    let mut j: usize = WORD_BYTES;
    while j < 2 * WORD_BYTES
        invariant
            total@.len() == 64,
            lo == total@.skip(32),
            hi == total@.take(32),
            be_value(total@) == be_value(hi) * pow256(32) + be_value(lo),
            forall|k: int| 0 <= k < 32 ==> total@[k] == 0,
            WORD_BYTES <= j <= 2 * WORD_BYTES,
            low@ == lo.take(j - 32),
        decreases 2 * WORD_BYTES - j,
    {
        low.push(total[j]);
        j = j + 1;
        assert(low@ =~= lo.take(j - 32));
    }
    proof {
        assert(low@ =~= lo);
        lemma_zero_bytes_value(hi);
    }
    let prime = stark_prime_word();
    if bytes_lt(&low, &prime) {
        Ok(Word { bytes: low })
    } else {
        Err(ReconcileError::AmountOutOfRange)
    }
}

/// The withdrawal amount `(high << 256) | low` as a field element, or
/// `AmountOutOfRange` when it does not fit one.
pub fn reconstruct_amount(low: &Word, high: &Word) -> (r: Result<Word, ReconcileError>)
    requires
        low.wf(),
        high.wf(),
    ensures
        r is Ok <==> combined_value(low.value(), high.value()) < stark_prime(),
        r matches Ok(w) ==> w.wf() && w.value() == combined_value(low.value(), high.value()),
        r matches Err(e) ==> e == ReconcileError::AmountOutOfRange,
{
    let total = combine_amount(low, high);
    amount_to_felt(&total)
}

} // verus!
