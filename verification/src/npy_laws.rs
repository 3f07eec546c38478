//! Reading a file of values back.

use vstd::prelude::*;

use crate::config::F32Bits;
use crate::npy::ascii;
use crate::npy::decimal;
use crate::npy::description;
use crate::npy::header;
use crate::npy::lemma_npy_layout;
use crate::npy::lemma_npy_value;
use crate::npy::little_endian;
use crate::npy::npy;

verus! {

/// The number that decimal digits stand for.
pub open spec fn read_decimal(digits: Seq<u8>) -> int
    decreases digits.len(),
{
    if digits.len() == 0 {
        0
    } else {
        read_decimal(digits.drop_last()) * 10 + (digits.last() - 48)
    }
}

/// The number whose bytes these are, low byte first.
pub open spec fn read_word(bytes: Seq<u8>, at: int) -> int {
    bytes[at] + 256 * bytes[at + 1] + 65536 * bytes[at + 2] + 16777216 * bytes[at + 3]
}

/// The digits of a number read as that number, and are digits without a leading zero.
pub proof fn lemma_decimal_reads(n: nat)
    ensures
        read_decimal(decimal(n)) == n,
        decimal(n).len() > 0,
        forall|i: int| 0 <= i < decimal(n).len() ==> 48 <= #[trigger] decimal(n)[i] <= 57,
        n > 0 ==> decimal(n)[0] != 48,
    decreases n,
{
    if n >= 10 {
        lemma_decimal_reads(n / 10);
        let front = decimal(n / 10);
        let last = (48 + n % 10) as u8;
        assert(decimal(n) == front.push(last));
        assert(front.push(last).drop_last() =~= front);
    } else {
        reveal_with_fuel(read_decimal, 2);
        assert(decimal(n).drop_last() =~= Seq::empty());
    }
}

/// The bytes of a word read as that word.
pub proof fn lemma_word_reads(x: u32)
    ensures
        little_endian(x).len() == 4,
        read_word(little_endian(x), 0) == x,
{
}

/// A reader finds every value in its place.
pub proof fn lemma_value_reads(values: Seq<F32Bits>, i: int)
    requires
        values.len() <= u64::MAX,
        0 <= i < values.len(),
    ensures
        read_word(npy(values), 10 + header(values.len()).len() + 4 * i) == values[i],
{
    lemma_npy_layout(values);
    lemma_npy_value(values, i);
    lemma_word_reads(values[i]);
    let at = 10 + header(values.len()).len() + 4 * i;
    let part = npy(values).subrange(at, at + 4);
    assert(part[0] == npy(values)[at]);
    assert(part[1] == npy(values)[at + 1]);
    assert(part[2] == npy(values)[at + 2]);
    assert(part[3] == npy(values)[at + 3]);
}

/// The file starts with the format's magic string and version, and describes one dimension of
/// little-endian single-precision numbers, as many as there are values.
pub proof fn lemma_describes(values: Seq<F32Bits>)
    requires
        values.len() <= u64::MAX,
    ensures
        ({
            let file = npy(values);
            let start = ascii("{'descr': '<f4', 'fortran_order': False, 'shape': ("@);
            let end = ascii(",), }"@);
            let digits = decimal(values.len());
            let (a, b) = (10 + start.len(), 10 + start.len() + digits.len());
            &&& file.subrange(0, 8) == seq![0x93u8, 78, 85, 77, 80, 89, 1, 0]
            &&& file.subrange(10, a as int) == start
            &&& file.subrange(a as int, b as int) == digits
            &&& read_decimal(digits) == values.len()
            &&& file.subrange(b as int, (b + end.len()) as int) == end
            &&& forall|i: int|
                b + end.len() <= i < 10 + header(values.len()).len() - 1 ==> #[trigger] file[i]
                    == 32
        }),
{
    lemma_npy_layout(values);
    lemma_decimal_reads(values.len());
    let file = npy(values);
    let d = description(values.len());
    let start = ascii("{'descr': '<f4', 'fortran_order': False, 'shape': ("@);
    let end = ascii(",), }"@);
    let digits = decimal(values.len());
    let (a, b) = (10 + start.len(), 10 + start.len() + digits.len());
    assert(d == start + digits + end);
    assert forall|i: int| 0 <= i < d.len() implies #[trigger] file[10 + i] == d[i] by {
        assert(header(values.len())[i] == d[i]);
    }
    assert(file.subrange(0, 8) =~= seq![0x93u8, 78, 85, 77, 80, 89, 1, 0]);
    assert forall|i: int| 0 <= i < start.len() implies #[trigger] file.subrange(
        10,
        a as int,
    )[i] == start[i] by {
        assert(file[10 + i] == d[i]);
    }
    assert(file.subrange(10, a as int) =~= start);
    assert forall|i: int| 0 <= i < digits.len() implies #[trigger] file.subrange(
        a as int,
        b as int,
    )[i] == digits[i] by {
        assert(file[10 + (start.len() + i)] == d[start.len() + i]);
    }
    assert(file.subrange(a as int, b as int) =~= digits);
    assert forall|i: int| 0 <= i < end.len() implies #[trigger] file.subrange(
        b as int,
        (b + end.len()) as int,
    )[i] == end[i] by {
        let k = start.len() + digits.len() + i;
        assert(file[10 + k] == d[k]);
    }
    assert(file.subrange(b as int, (b + end.len()) as int) =~= end);
    assert forall|i: int|
        b + end.len() <= i < 10 + header(values.len()).len() - 1 implies #[trigger] file[i]
        == 32 by {
        assert(header(values.len())[i - 10] == 32);
    }
}

} // verus!
