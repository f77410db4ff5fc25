//! Big-integer word packing: length-checked, endianness-explicit conversions
//! between byte buffers and arrays of 64-bit words, plus the few multi-word
//! comparison and subtraction primitives the field bridges need.
//!
//! All values are read as digit strings: a byte buffer is a base-256 digit
//! string and a word array a base-2^64 digit string, in the stated endianness.
//! This is the only place in the crate that reinterprets raw layouts.

use vstd::prelude::*;
use vstd::endian::{Endian, EndianNat, base_upper_bound_excl, Base};
use vstd::arithmetic::power::{pow, lemma_pow_multiplies, lemma_pow_adds, lemma_pow_increases};
use vstd::arithmetic::div_mod::{
    lemma_fundamental_div_mod, lemma_fundamental_div_mod_converse, lemma_small_mod,
    lemma_mod_multiples_vanish,
};

verus! {

/// The bytes of `s`, read as a little-endian base-256 digit string.
pub open spec fn le_bytes(s: Seq<u8>) -> EndianNat<u8> {
    EndianNat::new(Endian::Little, s.map_values(|b: u8| b as int))
}

/// The value of `s` read as a little-endian byte string.
pub open spec fn le_bytes_nat(s: Seq<u8>) -> nat {
    le_bytes(s).to_nat()
}

/// The bytes of `s`, read as a big-endian base-256 digit string.
pub open spec fn be_bytes(s: Seq<u8>) -> EndianNat<u8> {
    EndianNat::new(Endian::Big, s.map_values(|b: u8| b as int))
}

/// The value of `s` read as a big-endian byte string.
pub open spec fn be_bytes_nat(s: Seq<u8>) -> nat {
    be_bytes(s).to_nat()
}

/// The words of `s`, read as a little-endian base-2^64 digit string.
pub open spec fn le_words(s: Seq<u64>) -> EndianNat<u64> {
    EndianNat::new(Endian::Little, s.map_values(|w: u64| w as int))
}

/// The value of `s` read as a little-endian word string.
pub open spec fn le_words_nat(s: Seq<u64>) -> nat {
    le_words(s).to_nat()
}

/// A digit string of length zero denotes zero.
proof fn lemma_to_nat_empty<B: Base>(e: EndianNat<B>)
    requires
        e.len() == 0,
    ensures
        e.to_nat() == 0,
{
    reveal(EndianNat::to_nat);
}

/// A digit string of length one denotes its single digit.
proof fn lemma_to_nat_single<B: Base>(e: EndianNat<B>)
    requires
        e.wf(),
        e.len() == 1,
    ensures
        e.to_nat() == e.digits[0],
{
    reveal(EndianNat::to_nat);
    lemma_to_nat_empty(e.drop_least());
    assert(e.to_nat() == 0 * B::base() + e.least());
}

/// Equal values written with equally many digits are the same digit string.
proof fn lemma_to_nat_injective<B: Base>(a: EndianNat<B>, b: EndianNat<B>)
    requires
        a.wf(),
        b.wf(),
        a.endian == b.endian,
        a.len() == b.len(),
        a.to_nat() == b.to_nat(),
    ensures
        a.digits =~= b.digits,
    decreases a.len(),
{
    reveal(EndianNat::to_nat);
    B::base_min();
    if a.len() > 0 {
        let ra = a.drop_least();
        let rb = b.drop_least();
        assert(a.to_nat() == ra.to_nat() * B::base() + a.least());
        assert(b.to_nat() == rb.to_nat() * B::base() + b.least());
        lemma_fundamental_div_mod_converse(
            a.to_nat() as int,
            B::base() as int,
            ra.to_nat() as int,
            a.least() as int,
        );
        lemma_fundamental_div_mod_converse(
            b.to_nat() as int,
            B::base() as int,
            rb.to_nat() as int,
            b.least() as int,
        );
        lemma_to_nat_injective(ra, rb);
        match a.endian {
            Endian::Little => {
                assert forall|i: int| 0 <= i < a.digits.len() implies a.digits[i]
                    == b.digits[i] by {
                    if i == 0 {
                        assert(a.digits[0] == a.least());
                        assert(b.digits[0] == b.least());
                    } else {
                        assert(ra.digits[i - 1] == rb.digits[i - 1]);
                    }
                }
            },
            Endian::Big => {
                assert forall|i: int| 0 <= i < a.digits.len() implies a.digits[i]
                    == b.digits[i] by {
                    if i == a.digits.len() - 1 {
                        assert(a.digits[i] == a.least());
                        assert(b.digits[i] == b.least());
                    } else {
                        assert(ra.digits[i] == rb.digits[i]);
                    }
                }
            },
        }
    }
}

/// Two little-endian byte strings of the same length and the same value are equal.
pub proof fn lemma_le_bytes_nat_injective(a: Seq<u8>, b: Seq<u8>)
    requires
        a.len() == b.len(),
        le_bytes_nat(a) == le_bytes_nat(b),
    ensures
        a =~= b,
{
    lemma_to_nat_injective(le_bytes(a), le_bytes(b));
    assert forall|i: int| 0 <= i < a.len() implies a[i] == b[i] by {
        assert(le_bytes(a).digits[i] == le_bytes(b).digits[i]);
    }
}

/// Two little-endian word strings of the same length and the same value are equal.
pub proof fn lemma_le_words_nat_injective(a: Seq<u64>, b: Seq<u64>)
    requires
        a.len() == b.len(),
        le_words_nat(a) == le_words_nat(b),
    ensures
        a =~= b,
{
    lemma_to_nat_injective(le_words(a), le_words(b));
    assert forall|i: int| 0 <= i < a.len() implies a[i] == b[i] by {
        assert(le_words(a).digits[i] == le_words(b).digits[i]);
    }
}

/// Two big-endian byte strings of the same length and the same value are equal.
pub proof fn lemma_be_bytes_nat_injective(a: Seq<u8>, b: Seq<u8>)
    requires
        a.len() == b.len(),
        be_bytes_nat(a) == be_bytes_nat(b),
    ensures
        a =~= b,
{
    lemma_to_nat_injective(be_bytes(a), be_bytes(b));
    assert forall|i: int| 0 <= i < a.len() implies a[i] == b[i] by {
        assert(be_bytes(a).digits[i] == be_bytes(b).digits[i]);
    }
}

/// The value of a big-endian byte string is bounded by 256 to the power of its length.
pub proof fn lemma_be_bytes_nat_bound(s: Seq<u8>)
    ensures
        be_bytes_nat(s) < pow(256, s.len()),
{
    be_bytes(s).to_nat_properties();
}

/// The value of a word string is bounded by 2^64 to the power of its length.
pub proof fn lemma_le_words_nat_bound(s: Seq<u64>)
    ensures
        le_words_nat(s) < pow(0x10000000000000000, s.len()),
{
    le_words(s).to_nat_properties();
    assert(base_upper_bound_excl::<u64>(s.len()) == pow(0x10000000000000000, s.len()));
}

/// Reversing a byte string swaps its little-endian and big-endian readings.
pub proof fn lemma_reverse_swaps_endianness(s: Seq<u8>)
    ensures
        be_bytes_nat(s.reverse()) == le_bytes_nat(s),
    decreases s.len(),
{
    reveal(EndianNat::to_nat);
    if s.len() == 0 {
    } else {
        let r = s.reverse();
        let eb = be_bytes(r);
        let el = le_bytes(s);
        assert(eb.least() == el.least()) by {
            assert(r[r.len() - 1] == s[0]);
        }
        assert(eb.drop_least().digits =~= be_bytes(s.drop_first().reverse()).digits);
        assert(el.drop_least().digits =~= le_bytes(s.drop_first()).digits);
        lemma_reverse_swaps_endianness(s.drop_first());
        assert(eb.to_nat() == eb.drop_least().to_nat() * 256 + eb.least());
        assert(el.to_nat() == el.drop_least().to_nat() * 256 + el.least());
    }
}

/// A little-endian word string of length zero denotes zero.
pub proof fn lemma_le_words_empty(s: Seq<u64>)
    requires
        s.len() == 0,
    ensures
        le_words_nat(s) == 0,
{
    lemma_to_nat_empty(le_words(s));
}

/// Unfolds one digit of a little-endian word string.
pub proof fn lemma_le_words_unfold(s: Seq<u64>)
    requires
        s.len() > 0,
    ensures
        le_words_nat(s) == s[0] + le_words_nat(s.drop_first()) * 0x10000000000000000,
{
    assert(seq![s[0]] + s.drop_first() =~= s);
    lemma_le_words_split(seq![s[0]], s.drop_first());
    lemma_to_nat_single(le_words(seq![s[0]]));
    lemma_pow_consts();
}

/// A byte string denotes zero exactly when every byte is zero.
pub proof fn lemma_le_bytes_nat_zero(s: Seq<u8>)
    ensures
        le_bytes_nat(s) == 0 <==> (forall|i: int| 0 <= i < s.len() ==> s[i] == 0),
    decreases s.len(),
{
    reveal(EndianNat::to_nat);
    if s.len() == 0 {
    } else {
        let e = le_bytes(s);
        assert(e.drop_least().digits =~= le_bytes(s.drop_first()).digits);
        lemma_le_bytes_nat_zero(s.drop_first());
        assert(e.to_nat() == e.drop_least().to_nat() * 256 + e.least());
        if le_bytes_nat(s) == 0 {
            assert(forall|i: int| 0 <= i < s.drop_first().len() ==> s.drop_first()[i] == 0);
            assert forall|i: int| 0 <= i < s.len() implies s[i] == 0 by {
                if i > 0 {
                    assert(s.drop_first()[i - 1] == 0);
                }
            }
        } else {
            if forall|i: int| 0 <= i < s.len() ==> s[i] == 0 {
                assert forall|i: int| 0 <= i < s.drop_first().len() implies s.drop_first()[i]
                    == 0 by {
                    assert(s[i + 1] == 0);
                }
                assert(le_bytes_nat(s.drop_first()) == 0);
                assert(false);
            }
        }
    }
}

/// Splitting a little-endian byte string: the tail scaled by the weight of the
/// head, plus the head.
pub proof fn lemma_le_bytes_split(pre: Seq<u8>, suf: Seq<u8>)
    ensures
        le_bytes_nat(pre + suf) == le_bytes_nat(pre) + le_bytes_nat(suf) * pow(256, pre.len()),
{
    let e_suf = le_bytes(suf);
    let e_pre = le_bytes(pre);
    EndianNat::<u8>::to_nat_append_least(e_suf, e_pre);
    assert(e_suf.append_least(e_pre).digits =~= le_bytes(pre + suf).digits);
    assert(base_upper_bound_excl::<u8>(pre.len()) == pow(256, pre.len()));
}

/// A big-endian byte string of length one denotes its single byte.
pub proof fn lemma_be_bytes_single(s: Seq<u8>)
    requires
        s.len() == 1,
    ensures
        be_bytes_nat(s) == s[0],
{
    lemma_to_nat_single(be_bytes(s));
}

/// Splitting a big-endian byte string: the head scaled by the weight of the
/// tail, plus the tail.
pub proof fn lemma_be_bytes_split(pre: Seq<u8>, suf: Seq<u8>)
    ensures
        be_bytes_nat(pre + suf) == be_bytes_nat(pre) * pow(256, suf.len()) + be_bytes_nat(suf),
{
    let e_pre = be_bytes(pre);
    let e_suf = be_bytes(suf);
    EndianNat::<u8>::to_nat_append_least(e_pre, e_suf);
    assert(e_pre.append_least(e_suf).digits =~= be_bytes(pre + suf).digits);
    assert(base_upper_bound_excl::<u8>(suf.len()) == pow(256, suf.len()));
}

/// Splitting a little-endian word string in the same way.
pub proof fn lemma_le_words_split(pre: Seq<u64>, suf: Seq<u64>)
    ensures
        le_words_nat(pre + suf) == le_words_nat(pre) + le_words_nat(suf) * pow(
            0x10000000000000000,
            pre.len(),
        ),
{
    let e_suf = le_words(suf);
    let e_pre = le_words(pre);
    EndianNat::<u64>::to_nat_append_least(e_suf, e_pre);
    assert(e_suf.append_least(e_pre).digits =~= le_words(pre + suf).digits);
    assert(base_upper_bound_excl::<u64>(pre.len()) == pow(0x10000000000000000, pre.len()));
}

/// The handful of literal powers the proofs below need.
proof fn lemma_pow_consts()
    ensures
        pow(256, 0) == 1,
        pow(256, 1) == 256,
        pow(256, 8) == 0x10000000000000000,
        pow(0x10000000000000000, 0) == 1,
        pow(0x10000000000000000, 1) == 0x10000000000000000,
{
    reveal_with_fuel(pow, 9);
}

/// One base-2^64 digit is eight base-256 digits.
proof fn lemma_word_byte_pow(i: nat)
    ensures
        pow(0x10000000000000000, i) == pow(256, 8 * i),
{
    lemma_pow_multiplies(256, 8, i);
    lemma_pow_consts();
}

/// Reads the eight bytes `bytes[start .. start + 8]` as one little-endian word.
fn le_word_at(bytes: &Vec<u8>, start: usize) -> (w: u64)
    requires
        start + 8 <= bytes@.len(),
    ensures
        w as nat == le_bytes_nat(bytes@.subrange(start as int, start as int + 8)),
{
    let ghost s = bytes@.subrange(start as int, start as int + 8);
    let blen = bytes.len();
    let mut w: u64 = 0;
    let mut j: usize = 8;
    proof {
        lemma_to_nat_empty(le_bytes(s.subrange(8, 8)));
        lemma_pow_consts();
        vstd::arithmetic::power::lemma_pow_increases(256, 0, 8);
    }
    while j > 0
        invariant
            j <= 8,
            start + 8 <= bytes@.len(),
            bytes@.len() == blen,
            s == bytes@.subrange(start as int, start as int + 8),
            w as nat == le_bytes_nat(s.subrange(j as int, 8)),
            (w as nat) < pow(256, (8 - j) as nat),
        decreases j,
    {
        j = j - 1;
        let b = bytes[start + j];
        proof {
            lemma_pow_consts();
            let tail = s.subrange(j as int + 1, 8);
            let cur = s.subrange(j as int, 8);
            assert(cur =~= seq![s[j as int]] + tail);
            lemma_le_bytes_split(seq![s[j as int]], tail);
            lemma_to_nat_single(le_bytes(seq![s[j as int]]));
            assert(le_bytes_nat(cur) == s[j as int] + le_bytes_nat(tail) * 256);
            assert(s[j as int] == b);
            assert(pow(256, (8 - j) as nat) == pow(256, (7 - j) as nat) * 256) by {
                lemma_pow_adds(256, (7 - j) as nat, 1);
                lemma_pow_consts();
            }
            assert(pow(256, (8 - j) as nat) <= pow(256, 8)) by {
                lemma_pow_increases(256, (8 - j) as nat, 8);
            }
            lemma_pow_consts();
            vstd::arithmetic::power::lemma_pow_positive(256, (7 - j) as nat);
            assert((b as nat) + (w as nat) * 256 < pow(256, (8 - j) as nat)) by (nonlinear_arith)
                requires
                    (b as nat) < 256,
                    (w as nat) < pow(256, (7 - j) as nat),
                    pow(256, (8 - j) as nat) == pow(256, (7 - j) as nat) * 256,
            ;
        }
        w = w * 256 + (b as u64);
    }
    proof {
        assert(s.subrange(0, 8) =~= s);
    }
    w
}

/// Packs a little-endian byte buffer, whose length must be a multiple of
/// eight, into little-endian 64-bit words of the same value.
pub fn words_from_le_bytes(bytes: &Vec<u8>) -> (r: Vec<u64>)
    requires
        bytes@.len() % 8 == 0,
    ensures
        r@.len() == bytes@.len() / 8,
        le_words_nat(r@) == le_bytes_nat(bytes@),
{
    let blen = bytes.len();
    let n = blen / 8;
    let mut r: Vec<u64> = Vec::new();
    let mut i: usize = 0;
    proof {
        lemma_to_nat_empty(le_words(r@));
        lemma_to_nat_empty(le_bytes(bytes@.subrange(0, 0)));
    }
    while i < n
        invariant
            i <= n,
            n == bytes@.len() / 8,
            bytes@.len() % 8 == 0,
            bytes@.len() == blen,
            r@.len() == i,
            le_words_nat(r@) == le_bytes_nat(bytes@.subrange(0, 8 * i as int)),
        decreases n - i,
    {
        proof {
            lemma_fundamental_div_mod(bytes@.len() as int, 8);
        }
        let w = le_word_at(bytes, 8 * i);
        proof {
            let pre = bytes@.subrange(0, 8 * i as int);
            let chunk = bytes@.subrange(8 * i as int, 8 * i as int + 8);
            assert(bytes@.subrange(0, 8 * (i + 1) as int) =~= pre + chunk);
            lemma_le_bytes_split(pre, chunk);
            lemma_le_words_split(r@, seq![w]);
            assert(r@ + seq![w] =~= r@.push(w));
            lemma_to_nat_single(le_words(seq![w]));
            lemma_word_byte_pow(i as nat);
            assert(le_words_nat(r@.push(w)) == le_words_nat(r@) + (w as nat) * pow(
                256,
                8 * i as nat,
            ));
        }
        r.push(w);
        i = i + 1;
    }
    proof {
        assert(bytes@.subrange(0, 8 * n as int) =~= bytes@) by {
            lemma_fundamental_div_mod(bytes@.len() as int, 8);
            assert(8 * n as int == bytes@.len());
        }
    }
    r
}

/// Reinterprets a 32-byte little-endian buffer as four native 64-bit words,
/// little-endian word order, preserving the value.
pub fn u64s_from_bytes(bytes: &Vec<u8>) -> (r: Vec<u64>)
    requires
        bytes@.len() == 32,
    ensures
        r@.len() == 4,
        le_words_nat(r@) == le_bytes_nat(bytes@),
{
    words_from_le_bytes(bytes)
}

/// Unpacks little-endian 64-bit words into the little-endian byte buffer of
/// the same value, eight bytes per word.
pub fn le_bytes_from_words(words: &Vec<u64>) -> (r: Vec<u8>)
    ensures
        r@.len() == 8 * words@.len(),
        le_bytes_nat(r@) == le_words_nat(words@),
{
    let mut r: Vec<u8> = Vec::new();
    let mut i: usize = 0;
    proof {
        lemma_to_nat_empty(le_words(words@.subrange(0, 0)));
        lemma_to_nat_empty(le_bytes(r@));
    }
    while i < words.len()
        invariant
            i <= words@.len(),
            r@.len() == 8 * i,
            le_bytes_nat(r@) == le_words_nat(words@.subrange(0, i as int)),
        decreases words@.len() - i,
    {
        let w = words[i];
        let mut cur: u64 = w;
        let mut j: usize = 0;
        proof {
            lemma_pow_consts();
            vstd::arithmetic::mul::lemma_mul_basics(pow(256, 8 * i as nat));
            assert(((w as nat) - (cur as nat) * pow(256, 0)) * pow(256, 8 * i as nat) == 0);
        }
        while j < 8
            invariant
                j <= 8,
                i < words@.len(),
                w == words@[i as int],
                r@.len() == 8 * i + j,
                (cur as int) == (w as int) / pow(256, j as nat),
                le_bytes_nat(r@) == le_words_nat(words@.subrange(0, i as int)) + (w as nat - (
                cur as nat) * pow(256, j as nat)) * pow(256, 8 * i as nat),
            decreases 8 - j,
        {
            let d = (cur % 256) as u8;
            let ghost pre_r = r@;
            let ghost old_cur = cur as int;
            r.push(d);
            cur = cur / 256;
            j = j + 1;
            proof {
                let p_j = pow(256, (j - 1) as nat);
                let p_i = pow(256, 8 * i as nat);
                vstd::arithmetic::power::lemma_pow_positive(256, (j - 1) as nat);
                vstd::arithmetic::power::lemma_pow_positive(256, 8 * i as nat);
                lemma_le_bytes_split(pre_r, seq![d]);
                assert(pre_r + seq![d] =~= r@);
                lemma_to_nat_single(le_bytes(seq![d]));
                lemma_pow_adds(256, (j - 1) as nat, 1);
                lemma_pow_consts();
                lemma_pow_adds(256, 8 * i as nat, (j - 1) as nat);
                assert(le_bytes_nat(r@) == le_bytes_nat(pre_r) + (d as nat) * (p_i * p_j));
                lemma_fundamental_div_mod(old_cur, 256);
                vstd::arithmetic::div_mod::lemma_div_denominator(w as int, p_j, 256);
                assert((cur as int) == (w as int) / pow(256, j as nat));
                // the new digit accounts for exactly the next slice of w
                assert((w as int - (cur as int) * (p_j * 256)) * p_i == (w as int - old_cur * p_j)
                    * p_i + (d as int) * (p_i * p_j)) by (nonlinear_arith)
                    requires
                        old_cur == 256 * (cur as int) + (d as int),
                        p_j >= 0,
                        p_i >= 0,
                ;
            }
        }
        proof {
            lemma_pow_consts();
            assert((w as int) / pow(256, 8) == 0) by {
                vstd::arithmetic::div_mod::lemma_basic_div(w as int, 0x10000000000000000);
            }
            assert(cur as nat == 0);
            let pre = words@.subrange(0, i as int);
            assert(words@.subrange(0, i as int + 1) =~= pre + seq![w]);
            lemma_le_words_split(pre, seq![w]);
            lemma_to_nat_single(le_words(seq![w]));
            lemma_word_byte_pow(i as nat);
        }
        i = i + 1;
    }
    proof {
        assert(words@.subrange(0, words@.len() as int) =~= words@);
    }
    r
}

/// Reverses a byte buffer, turning a little-endian encoding into the
/// big-endian encoding of the same value.
pub fn reverse_bytes(bytes: &Vec<u8>) -> (r: Vec<u8>)
    ensures
        r@ =~= bytes@.reverse(),
        be_bytes_nat(r@) == le_bytes_nat(bytes@),
{
    let mut r: Vec<u8> = Vec::new();
    let mut i: usize = bytes.len();
    while i > 0
        invariant
            i <= bytes@.len(),
            r@.len() == bytes@.len() - i,
            forall|k: int| 0 <= k < r@.len() ==> r@[k] == bytes@[bytes@.len() - 1 - k],
        decreases i,
    {
        i = i - 1;
        let b = bytes[i];
        r.push(b);
    }
    proof {
        assert(r@ =~= bytes@.reverse());
        lemma_reverse_swaps_endianness(bytes@);
    }
    r
}

/// Compares two equally long little-endian word strings as values.
pub fn big_lt(a: &Vec<u64>, b: &Vec<u64>) -> (r: bool)
    requires
        a@.len() == b@.len(),
    ensures
        r == (le_words_nat(a@) < le_words_nat(b@)),
{
    let mut i: usize = a.len();
    while i > 0
        invariant
            i <= a@.len(),
            a@.len() == b@.len(),
            forall|k: int| i <= k < a@.len() ==> a@[k] == b@[k],
        decreases i,
    {
        i = i - 1;
        if a[i] < b[i] {
            proof {
                lemma_words_cmp_at(a@, b@, i as int);
            }
            return true;
        }
        if a[i] > b[i] {
            proof {
                lemma_words_cmp_at(b@, a@, i as int);
            }
            return false;
        }
    }
    proof {
        assert(a@ =~= b@);
    }
    false
}

/// If two word strings agree above position `i` and differ there, the one with
/// the smaller digit at `i` denotes the smaller value.
proof fn lemma_words_cmp_at(a: Seq<u64>, b: Seq<u64>, i: int)
    requires
        a.len() == b.len(),
        0 <= i < a.len(),
        forall|k: int| i < k < a.len() ==> a[k] == b[k],
        a[i] < b[i],
    ensures
        le_words_nat(a) < le_words_nat(b),
{
    let base: nat = 0x10000000000000000;
    let a_lo = a.subrange(0, i);
    let b_lo = b.subrange(0, i);
    let a_hi = a.subrange(i, a.len() as int);
    let b_hi = b.subrange(i, b.len() as int);
    assert(a =~= a_lo + a_hi);
    assert(b =~= b_lo + b_hi);
    lemma_le_words_split(a_lo, a_hi);
    lemma_le_words_split(b_lo, b_hi);
    let p_i = pow(base as int, i as nat);
    // high parts: first digit differs, rest are equal
    let a_rest = a_hi.subrange(1, a_hi.len() as int);
    let b_rest = b_hi.subrange(1, b_hi.len() as int);
    assert(a_rest =~= b_rest);
    assert(a_hi =~= seq![a[i]] + a_rest);
    assert(b_hi =~= seq![b[i]] + b_rest);
    lemma_le_words_split(seq![a[i]], a_rest);
    lemma_le_words_split(seq![b[i]], b_rest);
    lemma_to_nat_single(le_words(seq![a[i]]));
    lemma_to_nat_single(le_words(seq![b[i]]));
    lemma_pow_consts();
    vstd::arithmetic::power::lemma_pow_positive(base as int, i as nat);
    assert(le_words_nat(a_hi) == a[i] + le_words_nat(a_rest) * base);
    assert(le_words_nat(b_hi) == b[i] + le_words_nat(b_rest) * base);
    assert(le_words_nat(a_hi) < le_words_nat(b_hi));
    lemma_le_words_nat_bound(a_lo);
    lemma_le_words_nat_bound(b_lo);
    assert(pow(base as int, a_lo.len()) == p_i);
    // a = a_lo + a_hi * p_i < p_i + a_hi * p_i <= b_hi * p_i <= b
    assert(le_words_nat(a_lo) + le_words_nat(a_hi) * p_i < le_words_nat(b_lo) + le_words_nat(b_hi)
        * p_i) by (nonlinear_arith)
        requires
            le_words_nat(a_lo) < p_i,
            le_words_nat(b_lo) >= 0,
            le_words_nat(a_hi) < le_words_nat(b_hi),
            p_i > 0,
    ;
}

/// Subtracts one multi-word value from a larger or equal one, word by word
/// with borrows.
pub fn big_sub(a: &Vec<u64>, b: &Vec<u64>) -> (r: Vec<u64>)
    requires
        a@.len() == b@.len(),
        le_words_nat(b@) <= le_words_nat(a@),
    ensures
        r@.len() == a@.len(),
        le_words_nat(r@) == le_words_nat(a@) - le_words_nat(b@),
{
    let base: u128 = 0x10000000000000000;
    let mut r: Vec<u64> = Vec::new();
    let mut borrow: u64 = 0;
    let mut i: usize = 0;
    proof {
        lemma_to_nat_empty(le_words(r@));
        lemma_to_nat_empty(le_words(a@.subrange(0, 0)));
        lemma_to_nat_empty(le_words(b@.subrange(0, 0)));
    }
    while i < a.len()
        invariant
            i <= a@.len(),
            a@.len() == b@.len(),
            r@.len() == i,
            borrow <= 1,
            base == 0x10000000000000000,
            le_words_nat(r@) as int == le_words_nat(a@.subrange(0, i as int)) - le_words_nat(
                b@.subrange(0, i as int),
            ) + (borrow as int) * pow(0x10000000000000000, i as nat),
        decreases a@.len() - i,
    {
        let av: u128 = a[i] as u128;
        let bv: u128 = (b[i] as u128) + (borrow as u128);
        let d: u64;
        let new_borrow: u64;
        if av >= bv {
            d = (av - bv) as u64;
            new_borrow = 0;
        } else {
            d = ((av + base) - bv) as u64;
            new_borrow = 1;
        }
        proof {
            let p_i = pow(0x10000000000000000, i as nat);
            assert(p_i > 0) by {
                vstd::arithmetic::power::lemma_pow_positive(0x10000000000000000, i as nat);
            }
            assert(d as int == a@[i as int] + (new_borrow as int) * 0x10000000000000000 - b@[
                i as int] - borrow);
            let a_pre = a@.subrange(0, i as int);
            let b_pre = b@.subrange(0, i as int);
            assert(a@.subrange(0, i as int + 1) =~= a_pre + seq![a@[i as int]]);
            assert(b@.subrange(0, i as int + 1) =~= b_pre + seq![b@[i as int]]);
            lemma_le_words_split(a_pre, seq![a@[i as int]]);
            lemma_le_words_split(b_pre, seq![b@[i as int]]);
            lemma_le_words_split(r@, seq![d]);
            assert(r@ + seq![d] =~= r@.push(d));
            lemma_to_nat_single(le_words(seq![a@[i as int]]));
            lemma_to_nat_single(le_words(seq![b@[i as int]]));
            lemma_to_nat_single(le_words(seq![d]));
            lemma_pow_adds(0x10000000000000000, i as nat, 1);
            lemma_pow_consts();
            let lr = le_words_nat(r@) as int;
            let la = le_words_nat(a_pre) as int;
            let lb = le_words_nat(b_pre) as int;
            let ai = a@[i as int] as int;
            let bi = b@[i as int] as int;
            let p_i1 = pow(0x10000000000000000, (i + 1) as nat);
            assert(lr + (d as int) * p_i == (la + ai * p_i) - (lb + bi * p_i) + (
            new_borrow as int) * p_i1) by (nonlinear_arith)
                requires
                    lr == la - lb + (borrow as int) * p_i,
                    d as int == ai + (new_borrow as int) * 0x10000000000000000 - bi - (
                    borrow as int),
                    p_i1 == p_i * 0x10000000000000000,
                    p_i > 0,
            ;
            assert(le_words_nat(r@.push(d)) as int == lr + (d as int) * p_i);
        }
        r.push(d);
        borrow = new_borrow;
        i = i + 1;
    }
    proof {
        assert(a@.subrange(0, a@.len() as int) =~= a@);
        assert(b@.subrange(0, b@.len() as int) =~= b@);
        if borrow == 1 {
            lemma_le_words_nat_bound(r@);
            assert(false);
        }
    }
    r
}

/// Reduces a multi-word value modulo a nonzero modulus of the same width, by
/// repeated subtraction.
pub fn big_mod(a: &Vec<u64>, m: &Vec<u64>) -> (r: Vec<u64>)
    requires
        a@.len() == m@.len(),
        le_words_nat(m@) > 0,
    ensures
        r@.len() == a@.len(),
        le_words_nat(r@) == le_words_nat(a@) % le_words_nat(m@),
{
    let mut cur: Vec<u64> = a.clone();
    assert(cur@ =~= a@);
    while !big_lt(&cur, m)
        invariant
            cur@.len() == a@.len(),
            a@.len() == m@.len(),
            le_words_nat(m@) > 0,
            le_words_nat(cur@) % le_words_nat(m@) == le_words_nat(a@) % le_words_nat(m@),
        decreases le_words_nat(cur@),
    {
        let next = big_sub(&cur, m);
        proof {
            let mv = le_words_nat(m@) as int;
            lemma_mod_multiples_vanish(1, le_words_nat(cur@) - mv, mv);
        }
        cur = next;
    }
    proof {
        lemma_small_mod(le_words_nat(cur@), le_words_nat(m@));
    }
    cur
}

/// A big-endian byte string denotes zero exactly when every byte is zero.
pub proof fn lemma_be_bytes_nat_zero(s: Seq<u8>)
    ensures
        be_bytes_nat(s) == 0 <==> (forall|i: int| 0 <= i < s.len() ==> s[i] == 0),
{
    lemma_reverse_swaps_endianness(s.reverse());
    assert(s.reverse().reverse() =~= s);
    lemma_le_bytes_nat_zero(s.reverse());
    assert(le_bytes_nat(s.reverse()) == be_bytes_nat(s));
    if forall|i: int| 0 <= i < s.len() ==> s[i] == 0 {
        assert forall|i: int| 0 <= i < s.reverse().len() implies s.reverse()[i] == 0 by {
            assert(s[s.len() - 1 - i] == 0);
        }
        assert(le_bytes_nat(s.reverse()) == 0);
    }
    if be_bytes_nat(s) == 0 {
        assert forall|i: int| 0 <= i < s.len() implies s[i] == 0 by {
            assert(s.reverse()[s.len() - 1 - i] == 0);
        }
    }
}

/// A word string denotes zero exactly when every word is zero.
pub proof fn lemma_le_words_nat_zero(s: Seq<u64>)
    ensures
        le_words_nat(s) == 0 <==> (forall|i: int| 0 <= i < s.len() ==> s[i] == 0),
    decreases s.len(),
{
    reveal(EndianNat::to_nat);
    if s.len() == 0 {
    } else {
        let e = le_words(s);
        assert(e.drop_least().digits =~= le_words(s.drop_first()).digits);
        lemma_le_words_nat_zero(s.drop_first());
        assert(e.to_nat() == e.drop_least().to_nat() * 0x10000000000000000 + e.least());
        if le_words_nat(s) == 0 {
            assert forall|i: int| 0 <= i < s.len() implies s[i] == 0 by {
                if i > 0 {
                    assert(s.drop_first()[i - 1] == 0);
                }
            }
        } else {
            if forall|i: int| 0 <= i < s.len() ==> s[i] == 0 {
                assert forall|i: int| 0 <= i < s.drop_first().len() implies s.drop_first()[i]
                    == 0 by {
                    assert(s[i + 1] == 0);
                }
                assert(le_words_nat(s.drop_first()) == 0);
                assert(false);
            }
        }
    }
}

/// True exactly when the word string denotes zero, i.e. every word is zero.
pub fn words_are_zero(words: &Vec<u64>) -> (r: bool)
    ensures
        r == (le_words_nat(words@) == 0),
{
    let mut i: usize = 0;
    while i < words.len()
        invariant
            i <= words@.len(),
            forall|k: int| 0 <= k < i ==> words@[k] == 0,
        decreases words@.len() - i,
    {
        if words[i] != 0 {
            proof {
                lemma_le_words_nat_zero(words@);
            }
            return false;
        }
        i = i + 1;
    }
    proof {
        lemma_le_words_nat_zero(words@);
    }
    true
}

/// Copies the byte range `[start, end)` out of a buffer.
pub fn sub_bytes(bytes: &Vec<u8>, start: usize, end: usize) -> (r: Vec<u8>)
    requires
        start <= end,
        end <= bytes@.len(),
    ensures
        r@ =~= bytes@.subrange(start as int, end as int),
{
    let mut r: Vec<u8> = Vec::new();
    let mut i: usize = start;
    while i < end
        invariant
            start <= i <= end,
            end <= bytes@.len(),
            r@.len() == i - start,
            forall|k: int| 0 <= k < r@.len() ==> r@[k] == bytes@[start + k],
        decreases end - i,
    {
        let b = bytes[i];
        r.push(b);
        i = i + 1;
    }
    r
}

/// True exactly when the buffer denotes zero, i.e. every byte is zero.
pub fn bytes_are_zero(bytes: &Vec<u8>) -> (r: bool)
    ensures
        r == (le_bytes_nat(bytes@) == 0),
{
    let mut i: usize = 0;
    while i < bytes.len()
        invariant
            i <= bytes@.len(),
            forall|k: int| 0 <= k < i ==> bytes@[k] == 0,
        decreases bytes@.len() - i,
    {
        if bytes[i] != 0 {
            proof {
                lemma_le_bytes_nat_zero(bytes@);
            }
            return false;
        }
        i = i + 1;
    }
    proof {
        lemma_le_bytes_nat_zero(bytes@);
    }
    true
}

} // verus!
