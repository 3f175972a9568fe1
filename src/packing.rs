//! Bit-packing of small unsigned values into 64-bit longs, least significant
//! bits first, with no value crossing a long boundary.
use vstd::arithmetic::div_mod::{
    lemma_div_denominator, lemma_fundamental_div_mod, lemma_fundamental_div_mod_converse_div,
    lemma_fundamental_div_mod_converse_mod,
};
use vstd::arithmetic::mul::{lemma_mul_inequality, lemma_mul_nonnegative};
use vstd::arithmetic::power::{
    lemma_pow0, lemma_pow1, lemma_pow_increases, lemma_pow_multiplies, lemma_pow_positive, pow,
};
use vstd::arithmetic::power2::{lemma2_to64, lemma2_to64_rest, lemma_pow2};
use vstd::prelude::*;

verus! {

/// Number of distinct values that a `bits`-wide field holds.
pub open spec fn radix(bits: nat) -> int {
    pow(2, bits)
}

/// How many `bits`-wide values one long holds.
pub open spec fn values_per_long(bits: nat) -> nat {
    (64int / (bits as int)) as nat
}

/// Number of longs needed for `n` values of `bits` bits each.
pub open spec fn long_count(n: nat, bits: nat) -> nat {
    ((n + values_per_long(bits) - 1) as int / values_per_long(bits) as int) as nat
}

/// The number whose base-`b` digits, least significant first, are `ds`.
pub open spec fn digits_value(ds: Seq<int>, b: int) -> int
    decreases ds.len(),
{
    if ds.len() == 0 {
        0
    } else {
        ds[0] + b * digits_value(ds.drop_first(), b)
    }
}

/// The values that go into long `i`, each reduced to `bits` bits.
pub open spec fn word_digits(vals: Seq<u64>, bits: nat, i: int) -> Seq<int> {
    let vpl = values_per_long(bits) as int;
    let lo = i * vpl;
    let hi = if lo + vpl <= vals.len() {
        lo + vpl
    } else {
        vals.len() as int
    };
    Seq::new((hi - lo) as nat, |j: int| vals[lo + j] as int % radix(bits))
}

/// Long `i` of the packing of `vals`.
pub open spec fn packed_word(vals: Seq<u64>, bits: nat, i: int) -> int {
    digits_value(word_digits(vals, bits, i), radix(bits))
}

/// Bit offset of value `k` inside its long.
pub open spec fn value_offset(bits: nat, k: int) -> nat {
    ((k % values_per_long(bits) as int) * bits) as nat
}

/// Value `k` read back out of packed longs.
pub open spec fn unpacked_value(words: Seq<u64>, bits: nat, k: int) -> int {
    (words[k / values_per_long(bits) as int] as int / pow(2, value_offset(bits, k)))
        % radix(bits)
}

/// Whether `words` is the packing of `vals` with `bits` bits per value.
pub open spec fn is_packing(words: Seq<u64>, vals: Seq<u64>, bits: nat) -> bool {
    &&& words.len() == long_count(vals.len(), bits)
    &&& forall|i: int| 0 <= i < words.len() ==> #[trigger] words[i] as int == packed_word(vals, bits, i)
}

proof fn lemma_digits_value_nonneg(ds: Seq<int>, b: int)
    requires
        b > 1,
        forall|t: int| 0 <= t < ds.len() ==> 0 <= #[trigger] ds[t] < b,
    ensures
        0 <= digits_value(ds, b) < pow(b, ds.len()),
    decreases ds.len(),
{
    reveal(pow);
    if ds.len() > 0 {
        let rest = ds.drop_first();
        lemma_digits_value_nonneg(rest, b);
        let rv = digits_value(rest, b);
        lemma_mul_nonnegative(b, rv);
        lemma_mul_inequality(rv, pow(b, rest.len()) - 1, b);
        assert(pow(b, ds.len()) == b * pow(b, rest.len()));
        assert(b * rv <= b * (pow(b, rest.len()) - 1)) by (nonlinear_arith)
            requires rv <= pow(b, rest.len()) - 1, b > 1;
        assert(b * (pow(b, rest.len()) - 1) == b * pow(b, rest.len()) - b) by (nonlinear_arith);
    }
}

/// Digit `j` of a base-`b` number is recovered by a division and a remainder.
proof fn lemma_digit_extract(ds: Seq<int>, b: int, j: int)
    requires
        b > 1,
        0 <= j < ds.len(),
        forall|t: int| 0 <= t < ds.len() ==> 0 <= #[trigger] ds[t] < b,
    ensures
        (digits_value(ds, b) / pow(b, j as nat)) % b == ds[j],
    decreases j,
{
    reveal(pow);
    let rest = ds.drop_first();
    lemma_digits_value_nonneg(rest, b);
    let rv = digits_value(rest, b);
    let v = digits_value(ds, b);
    assert(v == rv * b + ds[0]) by (nonlinear_arith)
        requires v == ds[0] + b * rv;
    if j == 0 {
        lemma_pow0(b);
        lemma_fundamental_div_mod_converse_mod(v, b, rv, ds[0]);
    } else {
        lemma_fundamental_div_mod_converse_div(v, b, rv, ds[0]);
        lemma_pow_positive(b, (j - 1) as nat);
        reveal(pow);
        lemma_digits_value_nonneg(ds, b);
        lemma_div_denominator(v, b, pow(b, (j - 1) as nat));
        assert(pow(b, j as nat) == b * pow(b, (j - 1) as nat));
        lemma_digit_extract(rest, b, j - 1);
    }
}

proof fn lemma_radix_facts(bits: nat)
    requires
        1 <= bits <= 64,
    ensures
        radix(bits) > 1,
        values_per_long(bits) >= 1,
        values_per_long(bits) * bits <= 64,
        pow(radix(bits), values_per_long(bits)) <= 0x1_0000_0000_0000_0000,
{
    let vpl = values_per_long(bits);
    assert(vpl >= 1) by (nonlinear_arith)
        requires vpl == 64int / (bits as int), 1 <= bits <= 64;
    lemma_pow2(bits);
    lemma_pow_increases(2, 1, bits);
    lemma_pow1(2);
    assert(vpl * bits <= 64) by (nonlinear_arith)
        requires vpl == 64int / (bits as int), bits >= 1;
    lemma_pow_multiplies(2, bits, vpl);
    lemma_pow_increases(2, bits * vpl, 64);
    lemma_pow2(64);
    lemma2_to64();
}

/// Packs `bits`-wide values into 64-bit longs, least significant bits first:
/// value `k` sits in long `k / (64 / bits)` at bit offset
/// `(k % (64 / bits)) * bits`; each value is first reduced to its low `bits`
/// bits.
pub fn pack_unsigned(values: &Vec<u64>, bits: usize) -> (words: Vec<u64>)
    requires
        1 <= bits <= 64,
    ensures
        is_packing(words@, values@, bits as nat),
{
    proof {
        lemma_radix_facts(bits as nat);
    }
    let vpl: usize = 64 / bits;
    let mut r: u128 = 1;
    let mut e: usize = 0;
    proof {
        reveal(pow);
    }
    while e < bits
        invariant
            e <= bits <= 64,
            r == pow(2, e as nat),
        decreases bits - e,
    {
        proof {
            reveal(pow);
            lemma_pow_increases(2, (e + 1) as nat, 64);
            lemma_pow2(64);
            lemma2_to64();
            lemma2_to64_rest();
        }
        r = r * 2;
        e = e + 1;
    }
    let n = values.len();
    assert(n % vpl != 0 ==> n / vpl + 1 <= n) by (nonlinear_arith)
        requires vpl >= 1;
    let count: usize = if n % vpl == 0 { n / vpl } else { n / vpl + 1 };
    proof {
        assert(count == long_count(n as nat, bits as nat)) by (nonlinear_arith)
            requires
                vpl >= 1,
                count as int == (if n % vpl == 0 { n as int / vpl as int } else { n as int / vpl as int + 1 }),
                long_count(n as nat, bits as nat) == (n + vpl - 1) as int / vpl as int,
        {
            lemma_fundamental_div_mod(n as int, vpl as int);
        }
    }
    let mut words: Vec<u64> = Vec::new();
    let mut i: usize = 0;
    while i < count
        invariant
            i <= count,
            count == long_count(n as nat, bits as nat),
            n == values.len(),
            vpl == values_per_long(bits as nat),
            r == radix(bits as nat),
            1 <= bits <= 64,
            radix(bits as nat) > 1,
            vpl >= 1,
            pow(radix(bits as nat), vpl as nat) <= 0x1_0000_0000_0000_0000,
            words.len() == i,
            forall|t: int| 0 <= t < i ==> #[trigger] words@[t] as int == packed_word(values@, bits as nat, t),
        decreases count - i,
    {
        assert(i * vpl < n) by (nonlinear_arith)
            requires i < count, count == (n + vpl - 1) as int / vpl as int, vpl >= 1;
        let lo: usize = i * vpl;
        let hi: usize = if n - lo >= vpl { lo + vpl } else { n };
        let ghost digits = word_digits(values@, bits as nat, i as int);
        assert(digits.len() == hi - lo);
        let mut word: u128 = 0;
        let mut j: usize = hi;
        proof {
            reveal(pow);
            assert(digits.subrange(hi - lo, hi - lo) =~= Seq::<int>::empty());
        }
        while j > lo
            invariant
                lo <= j <= hi <= n,
                hi - lo <= vpl,
                n == values.len(),
                r == radix(bits as nat),
                r > 1,
                digits == word_digits(values@, bits as nat, i as int),
                digits.len() == hi - lo,
                lo == i * vpl,
                vpl == values_per_long(bits as nat),
                pow(radix(bits as nat), vpl as nat) <= 0x1_0000_0000_0000_0000,
                word == digits_value(digits.subrange(j - lo, hi - lo), r as int),
                word < pow(r as int, (hi - j) as nat),
            decreases j,
        {
            j = j - 1;
            let d: u128 = values[j] as u128 % r;
            proof {
                reveal(pow);
                let k = (hi - j) as nat;
                let old_seq = digits.subrange(j + 1 - lo, hi - lo);
                let new_seq = digits.subrange(j - lo, hi - lo);
                assert(new_seq.drop_first() =~= old_seq);
                assert(new_seq[0] == d);
                assert(digits_value(new_seq, r as int) == new_seq[0] + r * digits_value(new_seq.drop_first(), r as int));
                assert(word * r == r * word) by (nonlinear_arith);
                lemma_pow_increases(r as nat, k, vpl as nat);
                assert(pow(r as int, k) == r * pow(r as int, (k - 1) as nat));
                assert(word * r + d < pow(r as int, k)) by (nonlinear_arith)
                    requires
                        word < pow(r as int, (k - 1) as nat),
                        d < r,
                        pow(r as int, k) == r * pow(r as int, (k - 1) as nat);
            }
            word = word * r + d;
        }
        proof {
            assert(digits.subrange(0, hi - lo) =~= digits);
            lemma_pow_increases(r as nat, (hi - lo) as nat, vpl as nat);
        }
        words.push(word as u64);
        i = i + 1;
    }
    words
}

/// Reads value `k` back out of packed longs.
pub fn unpack_value(words: &Vec<u64>, bits: usize, k: usize) -> (v: u64)
    requires
        1 <= bits <= 64,
        (k as int) / (values_per_long(bits as nat) as int) < words.len(),
    ensures
        v as int == unpacked_value(words@, bits as nat, k as int),
{
    proof {
        lemma_radix_facts(bits as nat);
    }
    let vpl: usize = 64 / bits;
    let word: u128 = words[k / vpl] as u128;
    let slot: usize = k % vpl;
    let mut div: u128 = 1;
    let mut e: usize = 0;
    proof {
        reveal(pow);
    }
    assert(slot * bits < 64) by (nonlinear_arith)
        requires slot < vpl, vpl * bits <= 64, bits >= 1;
    let shift: usize = slot * bits;
    while e < shift
        invariant
            e <= shift < 64,
            div == pow(2, e as nat),
        decreases shift - e,
    {
        proof {
            reveal(pow);
            lemma_pow_increases(2, (e + 1) as nat, 64);
            lemma_pow2(64);
            lemma2_to64();
            lemma2_to64_rest();
        }
        div = div * 2;
        e = e + 1;
    }
    let mut r: u128 = 1;
    let mut f: usize = 0;
    proof {
        reveal(pow);
    }
    while f < bits
        invariant
            f <= bits <= 64,
            r == pow(2, f as nat),
        decreases bits - f,
    {
        proof {
            reveal(pow);
            lemma_pow_increases(2, (f + 1) as nat, 64);
            lemma_pow2(64);
            lemma2_to64();
            lemma2_to64_rest();
        }
        r = r * 2;
        f = f + 1;
    }
    proof {
        lemma_pow_positive(2, shift as nat);
        lemma_pow_increases(2, bits as nat, 64);
        lemma_pow2(64);
        lemma2_to64_rest();
        assert(value_offset(bits as nat, k as int) == shift);
        vstd::arithmetic::div_mod::lemma_mod_bound((word / div) as int, r as int);
    }
    ((word / div) % r) as u64
}

proof fn lemma_round_trip_at(vals: Seq<u64>, words: Seq<u64>, bits: nat, k: int)
    requires
        1 <= bits <= 64,
        is_packing(words, vals, bits),
        forall|t: int| 0 <= t < vals.len() ==> (#[trigger] vals[t] as int) < radix(bits),
        0 <= k < vals.len(),
    ensures
        (k / values_per_long(bits) as int) < words.len(),
        unpacked_value(words, bits, k) == vals[k] as int,
        value_offset(bits, k) + bits <= 64,
{
    lemma_radix_facts(bits);
    let vpl = values_per_long(bits) as int;
    let b = radix(bits);
    let i = k / vpl;
    let j = k % vpl;
    lemma_fundamental_div_mod(k, vpl);
    assert(i < long_count(vals.len(), bits)) by (nonlinear_arith)
        requires
            k == vpl * i + j, 0 <= j < vpl, k < vals.len(), vpl >= 1,
            long_count(vals.len(), bits) == (vals.len() + vpl - 1) / vpl;
    assert(0 <= i) by (nonlinear_arith) requires k >= 0, vpl >= 1, i == k / vpl;
    let ds = word_digits(vals, bits, i);
    assert(i * vpl + j == k) by (nonlinear_arith) requires k == vpl * i + j;
    assert(j < ds.len());
    assert(ds[j] == vals[k] as int % b);
    vstd::arithmetic::div_mod::lemma_small_mod(vals[k] as nat, b as nat);
    assert forall|t: int| 0 <= t < ds.len() implies 0 <= #[trigger] ds[t] < b by {
        vstd::arithmetic::div_mod::lemma_mod_bound(vals[i * vpl + t] as int, b);
    }
    lemma_digit_extract(ds, b, j);
    lemma_pow_multiplies(2, bits, j as nat);
    assert(value_offset(bits, k) == j * bits);
    assert((j * bits) as nat == bits * (j as nat)) by (nonlinear_arith) requires j >= 0;
    assert(j * bits + bits <= 64) by (nonlinear_arith)
        requires j < vpl, vpl * bits <= 64, j >= 0, bits >= 1;
    assert(words[i] as int == packed_word(vals, bits, i));
}

/// Value `k` of `vals` lies inside one long of `words` and reads back
/// unchanged.
pub open spec fn reads_back(words: Seq<u64>, vals: Seq<u64>, bits: nat, k: int) -> bool {
    &&& (k / values_per_long(bits) as int) < words.len()
    &&& unpacked_value(words, bits, k) == vals[k] as int
    &&& value_offset(bits, k) + bits <= 64
}

/// Packing then unpacking gives back every value that fits in `bits` bits,
/// and no value crosses a 64-bit boundary.
pub proof fn lemma_pack_round_trip(vals: Seq<u64>, words: Seq<u64>, bits: nat)
    requires
        1 <= bits <= 64,
        is_packing(words, vals, bits),
        forall|k: int| 0 <= k < vals.len() ==> (#[trigger] vals[k] as int) < radix(bits),
    ensures
        forall|k: int| 0 <= k < vals.len() ==> #[trigger] reads_back(words, vals, bits, k),
{
    assert forall|k: int| 0 <= k < vals.len() implies #[trigger] reads_back(words, vals, bits, k) by {
        lemma_round_trip_at(vals, words, bits, k);
    }
}

/// Smallest width `b >= 1` whose `2^b` distinct values cover `size` entries.
pub open spec fn is_bits_for_range(size: nat, b: nat) -> bool {
    &&& 1 <= b <= 64
    &&& size <= pow(2, b)
    &&& (b == 1 || pow(2, (b - 1) as nat) < size)
}

/// Bits needed to index `size` distinct entries: `ceil(log2(size))`, at least 1.
pub fn bits_for_range(size: usize) -> (b: usize)
    ensures
        is_bits_for_range(size as nat, b as nat),
{
    let mut b: usize = 1;
    let mut p: u128 = 2;
    proof {
        reveal(pow);
        lemma_pow1(2);
    }
    while p < size as u128
        invariant
            1 <= b <= 64,
            p == pow(2, b as nat),
            b == 1 || pow(2, (b - 1) as nat) < size,
        decreases 64 - b,
    {
        proof {
            reveal(pow);
            lemma_pow2(64);
            lemma2_to64_rest();
            if b >= 64 {
                lemma_pow_increases(2, 64, b as nat);
                assert(false);
            }
        }
        b = b + 1;
        p = p * 2;
    }
    b
}

/// Packs palette indices for a palette of `palette_len` entries. A palette of
/// at most one entry needs no index data at all; otherwise each index takes
/// `max(min_bits, bits_for_range(palette_len))` bits.
pub fn pack_palette_indices(indices: &Vec<u16>, palette_len: usize, min_bits: usize) -> (r:
    Option<Vec<u64>>)
    requires
        1 <= min_bits <= 64,
    ensures
        palette_len <= 1 <==> r.is_none(),
        r.is_some() ==> exists|b: nat|
            #![trigger is_bits_for_range(palette_len as nat, b)]
            is_bits_for_range(palette_len as nat, b) && is_packing(
                r.unwrap()@,
                indices@.map_values(|v: u16| v as u64),
                if b < min_bits { min_bits as nat } else { b },
            ),
{
    if palette_len <= 1 {
        return None;
    }
    let needed = bits_for_range(palette_len);
    let bits = if needed < min_bits { min_bits } else { needed };
    let mut wide: Vec<u64> = Vec::new();
    let mut i: usize = 0;
    while i < indices.len()
        invariant
            i <= indices.len(),
            wide@ == indices@.subrange(0, i as int).map_values(|v: u16| v as u64),
        decreases indices.len() - i,
    {
        wide.push(indices[i] as u64);
        i = i + 1;
        proof {
            assert(wide@ =~= indices@.subrange(0, i as int).map_values(|v: u16| v as u64));
        }
    }
    proof {
        assert(indices@.subrange(0, indices.len() as int) =~= indices@);
    }
    let words = pack_unsigned(&wide, bits);
    proof {
        assert(is_bits_for_range(palette_len as nat, needed as nat));
    }
    Some(words)
}

} // verus!
