//! The bit-packed layout of table entries.
//!
//! A column of width `s` holds an unsigned value below `2^s`. An entry is the
//! concatenation of its values' bits, most significant bit first, column after
//! column; a table's data is the concatenation of its entries. The widths of a
//! table always add up to a whole, non-zero number of bytes, so every entry
//! starts on a byte boundary.

use vstd::arithmetic::div_mod::*;
use vstd::arithmetic::power2::*;
use vstd::bits::{lemma_u128_shr_is_div, lemma_u8_shr_is_div};
use vstd::prelude::*;

verus! {

/// Bit `j` (counting from the least significant bit) of `x`.
pub open spec fn bit_of(x: nat, j: nat) -> bool {
    (x / pow2(j)) % 2 == 1
}

/// The low `s` bits of `x`, most significant first.
pub open spec fn value_bits(x: nat, s: nat) -> Seq<bool> {
    Seq::new(s, |k: int| bit_of(x, (s - 1 - k) as nat))
}

/// The number that a sequence of bits spells, most significant bit first.
pub open spec fn value_of(b: Seq<bool>) -> nat
    decreases b.len(),
{
    if b.len() == 0 {
        0
    } else {
        value_of(b.drop_last()) * 2 + if b.last() {
            1nat
        } else {
            0nat
        }
    }
}

proof fn lemma_bit_of_half(x: nat, j: nat)
    ensures
        bit_of(x, j + 1) == bit_of(x / 2, j),
{
    lemma_pow2_unfold(j + 1);
    lemma_pow2_pos(j);
    lemma_div_denominator(x as int, 2, pow2(j) as int);
}

proof fn lemma_bit_of_zero(x: nat)
    ensures
        bit_of(x, 0) == (x % 2 == 1),
{
    lemma_pow2(0);
    vstd::arithmetic::power::lemma_pow0(2);
}

/// Spelling the low `s` bits of `x` gives back `x` modulo `2^s`.
pub proof fn lemma_value_of_value_bits(x: nat, s: nat)
    ensures
        value_of(value_bits(x, s)) == x % pow2(s),
    decreases s,
{
    if s == 0 {
        lemma_pow2(0);
        vstd::arithmetic::power::lemma_pow0(2);
        assert(value_bits(x, 0) =~= Seq::empty());
    } else {
        let b = value_bits(x, s);
        assert(b.drop_last() =~= value_bits(x / 2, (s - 1) as nat)) by {
            assert forall|k: int| 0 <= k < s - 1 implies b.drop_last()[k] == value_bits(
                x / 2,
                (s - 1) as nat,
            )[k] by {
                lemma_bit_of_half(x, (s - 2 - k) as nat);
            }
        }
        lemma_bit_of_zero(x);
        lemma_value_of_value_bits(x / 2, (s - 1) as nat);
        lemma_pow2_unfold(s);
        lemma_pow2_pos((s - 1) as nat);
        lemma_mod_breakdown(x as int, 2, pow2((s - 1) as nat) as int);
        vstd::arithmetic::mul::lemma_mul_is_commutative(2, pow2((s - 1) as nat) as int);
    }
}

/// A sequence of bits spells a number below `2^len`.
pub proof fn lemma_value_of_bound(b: Seq<bool>)
    ensures
        value_of(b) < pow2(b.len()),
    decreases b.len(),
{
    if b.len() == 0 {
        lemma_pow2(0);
        vstd::arithmetic::power::lemma_pow0(2);
    } else {
        lemma_value_of_bound(b.drop_last());
        lemma_pow2_unfold(b.len());
    }
}

/// Spelling a sequence of bits and taking its bits back gives the sequence.
pub proof fn lemma_value_bits_value_of(b: Seq<bool>)
    ensures
        value_bits(value_of(b), b.len()) == b,
    decreases b.len(),
{
    if b.len() > 0 {
        let v = value_of(b);
        let p = b.drop_last();
        lemma_value_bits_value_of(p);
        assert(v / 2 == value_of(p));
        assert(v % 2 == 1 <==> b.last());
        lemma_bit_of_zero(v);
        assert forall|k: int| 0 <= k < b.len() implies value_bits(v, b.len())[k] == b[k] by {
            if k < b.len() - 1 {
                lemma_bit_of_half(v, (b.len() - 2 - k) as nat);
                assert(value_bits(value_of(p), p.len())[k] == p[k]);
            }
        }
        assert(value_bits(v, b.len()) =~= b);
    }
}


/// The total number of bits of a list of column widths.
pub open spec fn sum_sizes(sizes: Seq<u128>) -> nat
    decreases sizes.len(),
{
    if sizes.len() == 0 {
        0
    } else {
        sum_sizes(sizes.drop_last()) + sizes.last() as nat
    }
}

/// A table shape that can address its entries: every column is at most 128
/// bits wide, and an entry takes a whole, non-zero number of bytes.
pub open spec fn valid_sizes(sizes: Seq<u128>) -> bool {
    &&& forall|i: int| 0 <= i < sizes.len() ==> #[trigger] sizes[i] <= 128
    &&& sum_sizes(sizes) > 0
    &&& sum_sizes(sizes) % 8 == 0
    &&& sum_sizes(sizes) / 8 <= usize::MAX
}

/// The number of bytes one entry takes.
pub open spec fn row_bytes(sizes: Seq<u128>) -> nat {
    sum_sizes(sizes) / 8
}

/// `row` has one value per column and each value fits its column's width.
pub open spec fn fits_row(row: Seq<u128>, sizes: Seq<u128>) -> bool {
    &&& row.len() == sizes.len()
    &&& forall|i: int| 0 <= i < sizes.len() ==> (#[trigger] row[i] as nat) < pow2(sizes[i] as nat)
}

/// The bits of an entry: each value's bits in column order.
pub open spec fn row_bits(row: Seq<u128>, sizes: Seq<u128>) -> Seq<bool>
    decreases sizes.len(),
{
    if sizes.len() == 0 {
        Seq::empty()
    } else {
        row_bits(row.drop_last(), sizes.drop_last()) + value_bits(
            row.last() as nat,
            sizes.last() as nat,
        )
    }
}

/// The values that the bits of an entry spell, column by column.
pub open spec fn decode_row_bits(bits: Seq<bool>, sizes: Seq<u128>) -> Seq<u128>
    decreases sizes.len(),
{
    if sizes.len() == 0 {
        Seq::empty()
    } else {
        let s = sizes.last() as int;
        let cut = if bits.len() >= s {
            bits.len() - s
        } else {
            0
        };
        decode_row_bits(bits.take(cut), sizes.drop_last()).push(
            value_of(bits.subrange(cut, bits.len() as int)) as u128,
        )
    }
}

/// The bits of a byte sequence, each byte most significant bit first.
pub open spec fn bytes_bits(bytes: Seq<u8>) -> Seq<bool>
    decreases bytes.len(),
{
    if bytes.len() == 0 {
        Seq::empty()
    } else {
        bytes_bits(bytes.drop_last()) + value_bits(bytes.last() as nat, 8)
    }
}

/// The bytes that a sequence of bits spells, eight bits to a byte.
pub open spec fn bits_bytes(bits: Seq<bool>) -> Seq<u8>
    decreases bits.len(),
{
    if bits.len() < 8 {
        Seq::empty()
    } else {
        let n = bits.len() as int;
        bits_bytes(bits.take(n - 8)).push(value_of(bits.subrange(n - 8, n)) as u8)
    }
}

/// The bytes of one entry.
pub open spec fn encode_row(row: Seq<u128>, sizes: Seq<u128>) -> Seq<u8> {
    bits_bytes(row_bits(row, sizes))
}

/// The entry that the bytes of one entry hold.
pub open spec fn decode_row(bytes: Seq<u8>, sizes: Seq<u128>) -> Seq<u128> {
    decode_row_bits(bytes_bits(bytes), sizes)
}

/// The data of a table: its entries' bytes, one after another.
pub open spec fn encode_rows(rows: Seq<Seq<u128>>, sizes: Seq<u128>) -> Seq<u8>
    decreases rows.len(),
{
    if rows.len() == 0 {
        Seq::empty()
    } else {
        encode_rows(rows.drop_last(), sizes) + encode_row(rows.last(), sizes)
    }
}

/// The entries that a table's data holds, cut into entries of `row_bytes` bytes.
pub open spec fn decode_rows(bytes: Seq<u8>, sizes: Seq<u128>) -> Seq<Seq<u128>> {
    let rb = row_bytes(sizes) as int;
    Seq::new(
        (bytes.len() as int / rb) as nat,
        |r: int| decode_row(bytes.subrange(r * rb, r * rb + rb), sizes),
    )
}

pub proof fn lemma_pow2_128()
    ensures
        pow2(128) == u128::MAX + 1,
{
    vstd::arithmetic::power2::lemma2_to64();
    lemma_pow2_adds(64, 64);
}

proof fn lemma_pow2_mono(a: nat, b: nat)
    requires
        a <= b,
    ensures
        pow2(a) <= pow2(b),
{
    if a < b {
        lemma_pow2_strictly_increases(a, b);
    }
}

/// The bits of an entry that fits are as many as its columns are wide, and
/// spell the entry back.
pub proof fn lemma_decode_row_bits_row_bits(row: Seq<u128>, sizes: Seq<u128>)
    requires
        fits_row(row, sizes),
    ensures
        row_bits(row, sizes).len() == sum_sizes(sizes),
        decode_row_bits(row_bits(row, sizes), sizes) == row,
    decreases sizes.len(),
{
    if sizes.len() > 0 {
        let rp = row.drop_last();
        let sp = sizes.drop_last();
        assert(fits_row(rp, sp)) by {
            assert forall|i: int| 0 <= i < sp.len() implies (#[trigger] rp[i] as nat) < pow2(
                sp[i] as nat,
            ) by {
                assert(rp[i] == row[i] && sp[i] == sizes[i]);
            }
        }
        lemma_decode_row_bits_row_bits(rp, sp);
        let head = row_bits(rp, sp);
        let tail = value_bits(row.last() as nat, sizes.last() as nat);
        let bits = row_bits(row, sizes);
        assert(bits == head + tail);
        assert(bits.take(head.len() as int) =~= head);
        assert(bits.subrange(head.len() as int, bits.len() as int) =~= tail);
        lemma_value_of_value_bits(row.last() as nat, sizes.last() as nat);
        assert(row[row.len() - 1] < pow2(sizes[sizes.len() - 1] as nat));
        vstd::arithmetic::div_mod::lemma_small_mod(
            row.last() as nat,
            pow2(sizes.last() as nat),
        );
        assert(decode_row_bits(bits, sizes) =~= row);
    }
}

/// Bits as many as the columns are wide spell an entry that fits, and whose
/// bits are those bits.
pub proof fn lemma_row_bits_decode_row_bits(bits: Seq<bool>, sizes: Seq<u128>)
    requires
        bits.len() == sum_sizes(sizes),
        forall|i: int| 0 <= i < sizes.len() ==> #[trigger] sizes[i] <= 128,
    ensures
        fits_row(decode_row_bits(bits, sizes), sizes),
        row_bits(decode_row_bits(bits, sizes), sizes) == bits,
    decreases sizes.len(),
{
    if sizes.len() > 0 {
        let s = sizes.last() as int;
        let cut = bits.len() - s;
        let sp = sizes.drop_last();
        let head = bits.take(cut);
        let tail = bits.subrange(cut, bits.len() as int);
        assert forall|i: int| 0 <= i < sp.len() implies #[trigger] sp[i] <= 128 by {
            assert(sp[i] == sizes[i]);
        }
        lemma_row_bits_decode_row_bits(head, sp);
        lemma_value_of_bound(tail);
        assert(sizes[sizes.len() - 1] <= 128);
        lemma_pow2_mono(tail.len(), 128);
        lemma_pow2_128();
        lemma_value_bits_value_of(tail);
        let d = decode_row_bits(bits, sizes);
        let dp = decode_row_bits(head, sp);
        assert(d.drop_last() =~= dp);
        assert forall|i: int| 0 <= i < sizes.len() implies (#[trigger] d[i] as nat) < pow2(
            sizes[i] as nat,
        ) by {
            if i < sizes.len() - 1 {
                assert(d[i] == dp[i] && sizes[i] == sp[i]);
            }
        }
        assert(row_bits(d, sizes) =~= bits);
    }
}

/// Taking the bits of bytes and spelling them back gives the bytes.
pub proof fn lemma_bits_bytes_bytes_bits(bytes: Seq<u8>)
    ensures
        bytes_bits(bytes).len() == 8 * bytes.len(),
        bits_bytes(bytes_bits(bytes)) == bytes,
    decreases bytes.len(),
{
    if bytes.len() > 0 {
        let bp = bytes.drop_last();
        lemma_bits_bytes_bytes_bits(bp);
        let bits = bytes_bits(bytes);
        let head = bytes_bits(bp);
        let tail = value_bits(bytes.last() as nat, 8);
        assert(bits.take(bits.len() - 8) =~= head);
        assert(bits.subrange(bits.len() - 8, bits.len() as int) =~= tail);
        lemma_value_of_value_bits(bytes.last() as nat, 8);
        vstd::arithmetic::power2::lemma2_to64();
        assert(bits_bytes(bits) =~= bytes);
    }
}

/// Spelling bits as bytes and taking their bits back gives the bits, when
/// they are a whole number of bytes.
pub proof fn lemma_bytes_bits_bits_bytes(bits: Seq<bool>)
    requires
        bits.len() % 8 == 0,
    ensures
        bits_bytes(bits).len() == bits.len() / 8,
        bytes_bits(bits_bytes(bits)) == bits,
    decreases bits.len(),
{
    if bits.len() >= 8 {
        let n = bits.len() as int;
        let head = bits.take(n - 8);
        let tail = bits.subrange(n - 8, n);
        lemma_bytes_bits_bits_bytes(head);
        lemma_value_of_bound(tail);
        vstd::arithmetic::power2::lemma2_to64();
        lemma_value_bits_value_of(tail);
        let b = bits_bytes(bits);
        assert(b.drop_last() =~= bits_bytes(head));
        assert(bytes_bits(b) =~= bits);
    }
}

/// Bit `p` of a byte sequence is bit `7 - p % 8` of byte `p / 8`.
pub proof fn lemma_bytes_bits_index(bytes: Seq<u8>, p: int)
    requires
        0 <= p < 8 * bytes.len(),
    ensures
        bytes_bits(bytes).len() == 8 * bytes.len(),
        bytes_bits(bytes)[p] == bit_of(bytes[p / 8] as nat, (7 - p % 8) as nat),
    decreases bytes.len(),
{
    lemma_bits_bytes_bytes_bits(bytes);
    let bp = bytes.drop_last();
    lemma_bits_bytes_bytes_bits(bp);
    if p < 8 * bp.len() {
        lemma_bytes_bits_index(bp, p);
        assert(bytes[p / 8] == bp[p / 8]);
    } else {
        let q = p - 8 * bp.len();
        assert(p / 8 == bp.len() && p % 8 == q) by {
            lemma_fundamental_div_mod_converse(p, 8, bp.len() as int, q);
        }
    }
}

/// The bits of two byte sequences one after the other.
pub proof fn lemma_bytes_bits_concat(a: Seq<u8>, b: Seq<u8>)
    ensures
        bytes_bits(a + b) == bytes_bits(a) + bytes_bits(b),
    decreases b.len(),
{
    if b.len() > 0 {
        assert((a + b).drop_last() =~= a + b.drop_last());
        lemma_bytes_bits_concat(a, b.drop_last());
        assert((a + b).last() == b.last());
    } else {
        assert(a + b =~= a);
    }
}

/// The entries of a table as sequences of values.
pub open spec fn rows_view(rows: Seq<Vec<u128>>) -> Seq<Seq<u128>> {
    rows.map_values(|row: Vec<u128>| row@)
}

pub broadcast proof fn lemma_rows_view(rows: Seq<Vec<u128>>)
    ensures
        #[trigger] rows_view(rows).len() == rows.len(),
        forall|i: int| 0 <= i < rows.len() ==> #[trigger] rows_view(rows)[i] == rows[i]@,
{
}

/// An entry that fits its columns takes `row_bytes` bytes, and reading those
/// bytes gives the entry back.
pub proof fn lemma_decode_encode_row(row: Seq<u128>, sizes: Seq<u128>)
    requires
        valid_sizes(sizes),
        fits_row(row, sizes),
    ensures
        encode_row(row, sizes).len() == row_bytes(sizes),
        decode_row(encode_row(row, sizes), sizes) == row,
{
    lemma_decode_row_bits_row_bits(row, sizes);
    lemma_bytes_bits_bits_bytes(row_bits(row, sizes));
}

/// Any `row_bytes` bytes hold an entry that fits its columns, and writing that
/// entry gives the same bytes.
pub proof fn lemma_encode_decode_row(bytes: Seq<u8>, sizes: Seq<u128>)
    requires
        valid_sizes(sizes),
        bytes.len() == row_bytes(sizes),
    ensures
        fits_row(decode_row(bytes, sizes), sizes),
        encode_row(decode_row(bytes, sizes), sizes) == bytes,
{
    lemma_bits_bytes_bytes_bits(bytes);
    lemma_row_bits_decode_row_bits(bytes_bits(bytes), sizes);
}

proof fn lemma_chunk_arith(r: int, n: int, rb: int)
    requires
        0 <= r < n,
        rb >= 0,
    ensures
        r * rb + rb <= n * rb,
        (r + 1) * rb == r * rb + rb,
        0 <= r * rb,
        (n - 1) * rb + rb == n * rb,
        r < n - 1 ==> r * rb + rb <= (n - 1) * rb,
{
    assert(r * rb + rb == (r + 1) * rb) by (nonlinear_arith);
    assert((r + 1) * rb <= n * rb) by (nonlinear_arith)
        requires
            r + 1 <= n,
            rb >= 0,
    ;
    assert(0 <= r * rb) by (nonlinear_arith)
        requires
            0 <= r,
            rb >= 0,
    ;
    assert((n - 1) * rb + rb == n * rb) by (nonlinear_arith);
    if r < n - 1 {
        assert((r + 1) * rb <= (n - 1) * rb) by (nonlinear_arith)
            requires
                r + 1 <= n - 1,
                rb >= 0,
        ;
    }
}

/// The data of entries that fit is `row_bytes` bytes per entry, and entry `r`
/// sits at bytes `r * row_bytes` up to `(r + 1) * row_bytes`.
pub proof fn lemma_encode_rows_layout(rows: Seq<Seq<u128>>, sizes: Seq<u128>)
    requires
        valid_sizes(sizes),
        forall|r: int| 0 <= r < rows.len() ==> fits_row(#[trigger] rows[r], sizes),
    ensures
        encode_rows(rows, sizes).len() == rows.len() * row_bytes(sizes),
        forall|r: int|
            0 <= r < rows.len() ==> #[trigger] encode_rows(rows, sizes).subrange(
                r * row_bytes(sizes),
                r * row_bytes(sizes) + row_bytes(sizes),
            ) == encode_row(rows[r], sizes),
    decreases rows.len(),
{
    let rb = row_bytes(sizes) as int;
    let n = rows.len() as int;
    if n == 0 {
    } else {
        let rp = rows.drop_last();
        assert forall|r: int| 0 <= r < rp.len() implies fits_row(#[trigger] rp[r], sizes) by {
            assert(rp[r] == rows[r]);
        }
        lemma_encode_rows_layout(rp, sizes);
        lemma_decode_encode_row(rows.last(), sizes);
        let e = encode_rows(rows, sizes);
        let ep = encode_rows(rp, sizes);
        lemma_chunk_arith(n - 1, n, rb);
        assert forall|r: int| 0 <= r < n implies #[trigger] e.subrange(r * rb, r * rb + rb)
            == encode_row(rows[r], sizes) by {
            lemma_chunk_arith(r, n, rb);
            if r < n - 1 {
                assert(e.subrange(r * rb, r * rb + rb) =~= ep.subrange(r * rb, r * rb + rb));
                assert(rp[r] == rows[r]);
            } else {
                assert(e.subrange(r * rb, r * rb + rb) =~= encode_row(rows.last(), sizes));
            }
        }
    }
}

proof fn lemma_div_exact(n: int, rb: int)
    requires
        n >= 0,
        rb > 0,
    ensures
        (n * rb) / rb == n,
        (n * rb) % rb == 0,
{
    lemma_div_by_multiple(n, rb);
    vstd::arithmetic::div_mod::lemma_mod_multiples_basic(n, rb);
}

/// Reading back the data of entries that fit their columns gives the entries.
pub proof fn lemma_decode_rows_encode_rows(rows: Seq<Seq<u128>>, sizes: Seq<u128>)
    requires
        valid_sizes(sizes),
        forall|r: int| 0 <= r < rows.len() ==> fits_row(#[trigger] rows[r], sizes),
    ensures
        decode_rows(encode_rows(rows, sizes), sizes) == rows,
{
    let rb = row_bytes(sizes) as int;
    lemma_encode_rows_layout(rows, sizes);
    lemma_div_exact(rows.len() as int, rb);
    let d = decode_rows(encode_rows(rows, sizes), sizes);
    assert forall|r: int| 0 <= r < rows.len() implies d[r] == rows[r] by {
        lemma_decode_encode_row(rows[r], sizes);
    }
    assert(d =~= rows);
}

/// Data that is a whole number of entries holds entries that fit their
/// columns, and writing them back gives the same data.
pub proof fn lemma_encode_rows_decode_rows(bytes: Seq<u8>, sizes: Seq<u128>)
    requires
        valid_sizes(sizes),
        bytes.len() % row_bytes(sizes) == 0,
    ensures
        forall|r: int|
            0 <= r < decode_rows(bytes, sizes).len() ==> fits_row(
                #[trigger] decode_rows(bytes, sizes)[r],
                sizes,
            ),
        encode_rows(decode_rows(bytes, sizes), sizes) == bytes,
    decreases bytes.len(),
{
    let rb = row_bytes(sizes) as int;
    let n = bytes.len() as int / rb;
    let d = decode_rows(bytes, sizes);
    lemma_fundamental_div_mod(bytes.len() as int, rb);
    assert(bytes.len() == n * rb) by {
        vstd::arithmetic::mul::lemma_mul_is_commutative(rb, n);
    }
    assert forall|r: int| 0 <= r < d.len() implies fits_row(#[trigger] d[r], sizes) by {
        lemma_chunk_arith(r, n, rb);
        lemma_encode_decode_row(bytes.subrange(r * rb, r * rb + rb), sizes);
    }
    if n == 0 {
        assert(bytes =~= Seq::<u8>::empty());
        assert(d.len() == 0);
    } else {
        lemma_chunk_arith(n - 1, n, rb);
        let head = bytes.take((n - 1) * rb);
        lemma_div_exact(n - 1, rb);
        lemma_encode_rows_decode_rows(head, sizes);
        let dh = decode_rows(head, sizes);
        assert(d.drop_last() =~= dh) by {
            assert forall|r: int| 0 <= r < n - 1 implies d.drop_last()[r] == dh[r] by {
                lemma_chunk_arith(r, n, rb);
                assert(head.subrange(r * rb, r * rb + rb) =~= bytes.subrange(r * rb, r * rb + rb));
            }
        }
        let last = bytes.subrange((n - 1) * rb, n * rb);
        lemma_encode_decode_row(last, sizes);
        assert(d.last() == decode_row(last, sizes));
        assert(encode_rows(d, sizes) == encode_rows(dh, sizes) + encode_row(d.last(), sizes));
        assert(head + last =~= bytes);
    }
}

proof fn lemma_sum_sizes_take(sizes: Seq<u128>, i: int)
    requires
        0 <= i < sizes.len(),
    ensures
        sum_sizes(sizes.take(i + 1)) == sum_sizes(sizes.take(i)) + sizes[i],
{
    assert(sizes.take(i + 1).drop_last() =~= sizes.take(i));
}

proof fn lemma_sum_sizes_prefix(sizes: Seq<u128>, i: int)
    requires
        0 <= i <= sizes.len(),
    ensures
        sum_sizes(sizes.take(i)) <= sum_sizes(sizes),
    decreases sizes.len() - i,
{
    if i < sizes.len() {
        lemma_sum_sizes_take(sizes, i);
        lemma_sum_sizes_prefix(sizes, i + 1);
    } else {
        assert(sizes.take(i) =~= sizes);
    }
}

/// The number of bytes one entry takes, for a valid table shape.
pub fn row_bytes_of(sizes: &Vec<u128>) -> (n: usize)
    requires
        valid_sizes(sizes@),
    ensures
        n == row_bytes(sizes@),
{
    let mut total: u128 = 0;
    let mut i: usize = 0;
    while i < sizes.len()
        invariant
            0 <= i <= sizes.len(),
            valid_sizes(sizes@),
            total == sum_sizes(sizes@.take(i as int)),
            total <= 128 * i,
        decreases sizes.len() - i,
    {
        proof {
            lemma_sum_sizes_take(sizes@, i as int);
        }
        assert(sizes[i as int] <= 128);
        total = total + sizes[i];
        i = i + 1;
    }
    assert(sizes@.take(sizes.len() as int) =~= sizes@);
    (total / 8) as usize
}

/// Whether column widths make a table shape that can address its entries.
pub fn sizes_are_valid(sizes: &Vec<u128>) -> (r: bool)
    ensures
        r == valid_sizes(sizes@),
{
    let mut total: u128 = 0;
    let mut i: usize = 0;
    while i < sizes.len()
        invariant
            0 <= i <= sizes.len(),
            total == sum_sizes(sizes@.take(i as int)),
            total <= 128 * i,
            forall|j: int| 0 <= j < i ==> #[trigger] sizes@[j] <= 128,
        decreases sizes.len() - i,
    {
        if sizes[i] > 128 {
            return false;
        }
        proof {
            lemma_sum_sizes_take(sizes@, i as int);
        }
        total = total + sizes[i];
        i = i + 1;
    }
    assert(sizes@.take(sizes.len() as int) =~= sizes@);
    total > 0 && total % 8 == 0 && total / 8 <= usize::MAX as u128
}

/// Whether `value` fits a column `size` bits wide.
pub fn value_fits(value: u128, size: u128) -> (r: bool)
    ensures
        r == (value < pow2(size as nat)),
{
    if size >= 128 {
        proof {
            lemma_pow2_128();
            lemma_pow2_mono(128, size as nat);
        }
        true
    } else {
        proof {
            lemma_u128_shr_is_div(value, size);
            lemma_pow2_pos(size as nat);
            if value >= pow2(size as nat) {
                vstd::arithmetic::div_mod::lemma_div_is_ordered(
                    pow2(size as nat) as int,
                    value as int,
                    pow2(size as nat) as int,
                );
                vstd::arithmetic::div_mod::lemma_div_by_self(pow2(size as nat) as int);
            } else {
                vstd::arithmetic::div_mod::lemma_basic_div(value as int, pow2(size as nat) as int);
            }
        }
        (value >> size) == 0
    }
}

/// Whether `row` has one value per column and each value fits its column.
pub fn row_fits(row: &Vec<u128>, sizes: &Vec<u128>) -> (r: bool)
    ensures
        r == fits_row(row@, sizes@),
{
    if row.len() != sizes.len() {
        return false;
    }
    let mut i: usize = 0;
    while i < sizes.len()
        invariant
            0 <= i <= sizes.len(),
            row.len() == sizes.len(),
            forall|j: int| 0 <= j < i ==> (#[trigger] row@[j] as nat) < pow2(sizes@[j] as nat),
        decreases sizes.len() - i,
    {
        if !value_fits(row[i], sizes[i]) {
            return false;
        }
        i = i + 1;
    }
    true
}

/// The state of a bit writer: `bits` were written after the bytes in `start`;
/// the whole bytes among them are in `out`, and the `nacc` bits after those
/// are held in `acc`.
spec fn writer_holds(start: Seq<u8>, out: Seq<u8>, acc: u8, nacc: u8, bits: Seq<bool>) -> bool {
    &&& nacc < 8
    &&& nacc <= bits.len()
    &&& (bits.len() - nacc) % 8 == 0
    &&& out == start + bits_bytes(bits.take(bits.len() - nacc))
    &&& acc == value_of(bits.skip(bits.len() - nacc))
}

fn write_bit(
    out: &mut Vec<u8>,
    acc: &mut u8,
    nacc: &mut u8,
    bit: bool,
    Ghost(start): Ghost<Seq<u8>>,
    Ghost(bits): Ghost<Seq<bool>>,
)
    requires
        writer_holds(start, old(out)@, *old(acc), *old(nacc), bits),
    ensures
        writer_holds(start, final(out)@, *final(acc), *final(nacc), bits.push(bit)),
{
    let ghost nb = bits.push(bit);
    let ghost l = bits.len() as int;
    proof {
        lemma_value_of_bound(bits.skip(l - *nacc));
        vstd::arithmetic::power2::lemma2_to64();
        lemma_pow2_mono(*nacc as nat, 7);
        assert(nb.skip(l - *nacc).drop_last() =~= bits.skip(l - *nacc));
        assert(nb.skip(l - *nacc).last() == bit);
    }
    let b: u8 = if bit {
        1
    } else {
        0
    };
    *acc = *acc * 2 + b;
    *nacc = *nacc + 1;
    if *nacc == 8 {
        proof {
            assert(nb.take(l + 1 - 8) =~= bits.take(l - 7));
            assert(nb.subrange(l + 1 - 8, l + 1) =~= nb.skip(l - 7));
            assert(nb.take(l + 1) =~= nb);
            assert(bits_bytes(nb) == bits_bytes(nb.take(l + 1 - 8)).push(
                value_of(nb.subrange(l + 1 - 8, l + 1)) as u8,
            ));
        }
        out.push(*acc);
        *acc = 0;
        *nacc = 0;
        proof {
            assert(nb.skip(l + 1) =~= Seq::<bool>::empty());
        }
    } else {
        proof {
            assert(nb.take(l + 1 - *nacc) =~= bits.take(l - (*nacc - 1)));
        }
    }
}

/// Appends the bytes of one entry.
fn push_row_bytes(out: &mut Vec<u8>, row: &Vec<u128>, sizes: &Vec<u128>)
    requires
        valid_sizes(sizes@),
        fits_row(row@, sizes@),
    ensures
        final(out)@ == old(out)@ + encode_row(row@, sizes@),
{
    let ghost start = out@;
    let ghost mut bits: Seq<bool> = Seq::empty();
    let mut acc: u8 = 0;
    let mut nacc: u8 = 0;
    proof {
        assert(bits.take(0) =~= Seq::<bool>::empty());
        assert(start + bits_bytes(Seq::<bool>::empty()) =~= start);
        assert(row@.take(0) =~= Seq::<u128>::empty());
        assert(sizes@.take(0) =~= Seq::<u128>::empty());
    }
    let n = sizes.len();
    let mut i: usize = 0;
    while i < n
        invariant
            0 <= i <= n,
            n == sizes.len(),
            valid_sizes(sizes@),
            fits_row(row@, sizes@),
            bits == row_bits(row@.take(i as int), sizes@.take(i as int)),
            writer_holds(start, out@, acc, nacc, bits),
        decreases n - i,
    {
        let s = sizes[i];
        let v = row[i];
        assert(s <= 128);
        let ghost vb = value_bits(v as nat, s as nat);
        let ghost before = bits;
        let mut k: u128 = 0;
        while k < s
            invariant
                0 <= k <= s,
                s <= 128,
                vb == value_bits(v as nat, s as nat),
                bits == before + vb.take(k as int),
                writer_holds(start, out@, acc, nacc, bits),
            decreases s - k,
        {
            let sh: u128 = s - 1 - k;
            proof {
                lemma_u128_shr_is_div(v, sh);
            }
            let bit = (v >> sh) % 2 == 1;
            assert(bit == vb[k as int]);
            write_bit(out, &mut acc, &mut nacc, bit, Ghost(start), Ghost(bits));
            proof {
                assert(before + vb.take(k + 1) =~= (before + vb.take(k as int)).push(bit));
                bits = bits.push(bit);
            }
            k = k + 1;
        }
        proof {
            assert(vb.take(s as int) =~= vb);
            assert(row@.take(i + 1).drop_last() =~= row@.take(i as int));
            assert(sizes@.take(i + 1).drop_last() =~= sizes@.take(i as int));
        }
        i = i + 1;
    }
    proof {
        assert(row@.take(n as int) =~= row@);
        assert(sizes@.take(n as int) =~= sizes@);
        lemma_decode_row_bits_row_bits(row@, sizes@);
        assert(bits.take(bits.len() as int) =~= bits);
    }
}

/// The data of a table with the given column widths: each entry's bits,
/// most significant bit first, column after column, entry after entry.
pub fn encode_entries(rows: &Vec<Vec<u128>>, sizes: &Vec<u128>) -> (out: Vec<u8>)
    requires
        valid_sizes(sizes@),
        forall|r: int| 0 <= r < rows@.len() ==> fits_row(#[trigger] rows@[r]@, sizes@),
    ensures
        out@ == encode_rows(rows_view(rows@), sizes@),
{
    let mut out: Vec<u8> = Vec::new();
    let mut r: usize = 0;
    while r < rows.len()
        invariant
            0 <= r <= rows.len(),
            valid_sizes(sizes@),
            forall|j: int| 0 <= j < rows@.len() ==> fits_row(#[trigger] rows@[j]@, sizes@),
            out@ == encode_rows(rows_view(rows@).take(r as int), sizes@),
        decreases rows.len() - r,
    {
        push_row_bytes(&mut out, &rows[r], sizes);
        proof {
            assert(rows_view(rows@).take(r + 1).drop_last() =~= rows_view(rows@).take(r as int));
        }
        r = r + 1;
    }
    assert(rows_view(rows@).take(rows.len() as int) =~= rows_view(rows@));
    out
}

/// Bit `q` of the `len` bytes of `bytes` that start at `start`.
fn read_bit(bytes: &Vec<u8>, start: usize, len: usize, q: u128) -> (b: bool)
    requires
        start + len <= bytes@.len(),
        q < 8 * len,
    ensures
        b == bytes_bits(bytes@.subrange(start as int, start + len))[q as int],
{
    let ghost chunk = bytes@.subrange(start as int, start + len);
    proof {
        lemma_bytes_bits_index(chunk, q as int);
    }
    assert(q / 8 < len as u128);
    let blen = bytes.len();
    assert(start + len <= blen);
    let byte = bytes[start + (q / 8) as usize];
    let sh: u8 = (7 - q % 8) as u8;
    proof {
        lemma_u8_shr_is_div(byte, sh);
    }
    (byte >> sh) % 2 == 1
}

/// The entry held by the `row_bytes` bytes of `bytes` that start at `start`.
fn decode_row_at(bytes: &Vec<u8>, start: usize, sizes: &Vec<u128>, rb: usize) -> (row: Vec<u128>)
    requires
        valid_sizes(sizes@),
        rb == row_bytes(sizes@),
        start + rb <= bytes@.len(),
    ensures
        row@ == decode_row(bytes@.subrange(start as int, start + rb), sizes@),
{
    let ghost chunk = bytes@.subrange(start as int, start + rb);
    let ghost bits = bytes_bits(chunk);
    proof {
        lemma_bits_bytes_bytes_bits(chunk);
        assert(bits.take(0) =~= Seq::<bool>::empty());
        assert(sizes@.take(0) =~= Seq::<u128>::empty());
    }
    let mut out: Vec<u128> = Vec::new();
    let n = sizes.len();
    let mut p: u128 = 0;
    let mut i: usize = 0;
    while i < n
        invariant
            0 <= i <= n,
            n == sizes.len(),
            valid_sizes(sizes@),
            rb == row_bytes(sizes@),
            start + rb <= bytes@.len(),
            chunk == bytes@.subrange(start as int, start + rb),
            bits == bytes_bits(chunk),
            bits.len() == sum_sizes(sizes@),
            p == sum_sizes(sizes@.take(i as int)),
            out@ == decode_row_bits(bits.take(p as int), sizes@.take(i as int)),
        decreases n - i,
    {
        let s = sizes[i];
        proof {
            lemma_sum_sizes_take(sizes@, i as int);
            lemma_sum_sizes_prefix(sizes@, i + 1);
        }
        assert(s <= 128);
        let mut v: u128 = 0;
        let mut k: u128 = 0;
        proof {
            assert(bits.subrange(p as int, p as int) =~= Seq::<bool>::empty());
        }
        while k < s
            invariant
                0 <= k <= s,
                s <= 128,
                p + s <= bits.len(),
                bits.len() == 8 * rb,
                start + rb <= bytes@.len(),
                chunk == bytes@.subrange(start as int, start + rb),
                bits == bytes_bits(chunk),
                v == value_of(bits.subrange(p as int, p + k)),
            decreases s - k,
        {
            proof {
                lemma_value_of_bound(bits.subrange(p as int, p + k));
                lemma_pow2_mono(k as nat, 127);
                lemma_pow2_unfold(128);
                lemma_pow2_128();
            }
            let b = read_bit(bytes, start, rb, p + k);
            proof {
                assert(bits.subrange(p as int, p + k + 1).drop_last() =~= bits.subrange(
                    p as int,
                    p + k,
                ));
            }
            v = v * 2 + if b {
                1
            } else {
                0
            };
            k = k + 1;
        }
        proof {
            let t = bits.take(p + s);
            assert(t.take(p as int) =~= bits.take(p as int));
            assert(t.subrange(p as int, p + s) =~= bits.subrange(p as int, p + s));
            assert(sizes@.take(i + 1).drop_last() =~= sizes@.take(i as int));
        }
        out.push(v);
        p = p + s;
        i = i + 1;
    }
    proof {
        assert(sizes@.take(n as int) =~= sizes@);
        assert(bits.take(p as int) =~= bits);
    }
    out
}

/// The entries held by a table's data, which must be a whole number of
/// entries.
pub fn decode_entries(bytes: &Vec<u8>, sizes: &Vec<u128>) -> (rows: Vec<Vec<u128>>)
    requires
        valid_sizes(sizes@),
        bytes@.len() % row_bytes(sizes@) == 0,
    ensures
        rows_view(rows@) == decode_rows(bytes@, sizes@),
{
    let rb = row_bytes_of(sizes);
    let n = bytes.len() / rb;
    let ghost d = decode_rows(bytes@, sizes@);
    let mut rows: Vec<Vec<u128>> = Vec::new();
    let mut start: usize = 0;
    let mut r: usize = 0;
    proof {
        vstd::arithmetic::div_mod::lemma_fundamental_div_mod(bytes@.len() as int, rb as int);
        vstd::arithmetic::mul::lemma_mul_is_commutative(rb as int, n as int);
    }
    while r < n
        invariant
            0 <= r <= n,
            n == bytes@.len() as int / (rb as int),
            n * rb == bytes@.len(),
            bytes@.len() <= usize::MAX,
            rb == row_bytes(sizes@),
            valid_sizes(sizes@),
            d == decode_rows(bytes@, sizes@),
            start == r * rb,
            rows_view(rows@) == d.take(r as int),
        decreases n - r,
    {
        proof {
            lemma_chunk_arith(r as int, n as int, rb as int);
        }
        let row = decode_row_at(bytes, start, sizes, rb);
        let ghost old_rows = rows_view(rows@);
        rows.push(row);
        proof {
            assert(rows_view(rows@) =~= old_rows.push(row@));
            assert(start + rb <= bytes@.len());
            assert(d.take(r + 1) =~= d.take(r as int).push(d[r as int]));
        }
        start = start + rb;
        r = r + 1;
    }
    assert(d.take(n as int) =~= d);
    rows
}

} // verus!
