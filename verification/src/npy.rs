//! One-dimensional NumPy files of single-precision values, held by their bit patterns.

use vstd::prelude::*;

use crate::config::F32Bits;

verus! {

/// The text before the number of elements.
pub open spec fn header_start() -> Seq<char> {
    "{'descr': '<f4', 'fortran_order': False, 'shape': ("@
}

/// The text after the number of elements.
pub open spec fn header_end() -> Seq<char> {
    ",), }"@
}

/// The bytes of a text in ASCII.
pub open spec fn ascii(text: Seq<char>) -> Seq<u8> {
    text.map_values(|c: char| c as u8)
}

/// The decimal digits of `n`.
pub open spec fn decimal(n: nat) -> Seq<u8>
    decreases n,
{
    if n < 10 {
        seq![(48 + n) as u8]
    } else {
        decimal(n / 10).push((48 + n % 10) as u8)
    }
}

/// The header before it is padded.
pub open spec fn description(n: nat) -> Seq<u8> {
    ascii(header_start()) + decimal(n) + ascii(header_end())
}

/// Spaces that bring the prefix, of ten bytes, the description and a newline, to a multiple of 64.
pub open spec fn padding(description: nat) -> nat {
    ((64 - (10 + description + 1) % 64) % 64) as nat
}

/// The header: the description, padded, and a newline.
pub open spec fn header(n: nat) -> Seq<u8> {
    description(n) + Seq::new(padding(description(n).len()), |i: int| 32u8) + seq![10u8]
}

/// The bytes of `x`, low byte first.
pub open spec fn little_endian(x: u32) -> Seq<u8> {
    seq![
        (x % 256) as u8,
        (x / 256 % 256) as u8,
        (x / 65536 % 256) as u8,
        (x / 16777216) as u8,
    ]
}

/// The magic string, the format version and the length of the header.
pub open spec fn preamble(header_len: nat) -> Seq<u8> {
    seq![0x93u8, 78, 85, 77, 80, 89, 1, 0, (header_len % 256) as u8, (header_len / 256) as u8]
}

/// The values, low byte first.
pub open spec fn payload(values: Seq<F32Bits>) -> Seq<u8>
    decreases values.len(),
{
    if values.len() == 0 {
        Seq::empty()
    } else {
        payload(values.drop_last()) + little_endian(values.last())
    }
}

/// The file of `values`.
pub open spec fn npy(values: Seq<F32Bits>) -> Seq<u8> {
    preamble(header(values.len()).len()) + header(values.len()) + payload(values)
}

proof fn lemma_decimal_len(n: nat, digits: nat)
    requires
        1 <= digits,
        n < pow10(digits),
    ensures
        1 <= decimal(n).len() <= digits,
    decreases digits,
{
    if n >= 10 {
        assert(digits >= 2) by {
            if digits == 1 {
                assert(pow10(1) == 10) by {
                    assert(pow10(0) == 1);
                }
            }
        }
        assert(pow10(digits) == 10 * pow10((digits - 1) as nat));
        lemma_decimal_len(n / 10, (digits - 1) as nat);
    }
}

spec fn pow10(k: nat) -> nat
    decreases k,
{
    if k == 0 {
        1
    } else {
        10 * pow10((k - 1) as nat)
    }
}

proof fn lemma_header_len(n: nat)
    requires
        n <= u64::MAX,
    ensures
        description(n).len() <= 76,
        header(n).len() <= 140,
        (10 + header(n).len()) % 64 == 0,
{
    assert(pow10(20) == 100_000_000_000_000_000_000) by {
        reveal_with_fuel(pow10, 21);
    }
    lemma_decimal_len(n, 20);
    reveal_strlit("{'descr': '<f4', 'fortran_order': False, 'shape': (");
    reveal_strlit(",), }");
    let d = description(n).len();
    let rest = (10 + d + 1) % 64;
    assert((10 + d + 1 + padding(d)) % 64 == 0) by {
        let q = (10 + d + 1) / 64;
        assert(10 + d + 1 == 64 * q + rest);
    }
    assert(header(n).len() == d + padding(d) + 1);
}

/// The values start at a multiple of 64 bytes, behind a newline; each takes four bytes.
pub proof fn lemma_npy_layout(values: Seq<F32Bits>)
    requires
        values.len() <= u64::MAX,
    ensures
        ({
            let start = 10 + header(values.len()).len();
            &&& start % 64 == 0
            &&& npy(values).len() == start + 4 * values.len()
            &&& npy(values)[start - 1] == 10
            &&& npy(values)[8] + 256 * npy(values)[9] == header(values.len()).len()
        }),
{
    lemma_header_len(values.len());
    lemma_payload_len(values);
}

proof fn lemma_payload_len(values: Seq<F32Bits>)
    ensures
        payload(values).len() == 4 * values.len(),
    decreases values.len(),
{
    if values.len() > 0 {
        lemma_payload_len(values.drop_last());
    }
}

/// Where a value is stored.
pub proof fn lemma_npy_value(values: Seq<F32Bits>, i: int)
    requires
        values.len() <= u64::MAX,
        0 <= i < values.len(),
    ensures
        ({
            let at = 10 + header(values.len()).len() + 4 * i;
            npy(values).subrange(at, at + 4) == little_endian(values[i])
        }),
{
    lemma_payload_at(values, i);
    lemma_payload_len(values);
    let start = 10 + header(values.len()).len();
    assert(npy(values).subrange(start + 4 * i, start + 4 * i + 4) =~= payload(values).subrange(
        4 * i,
        4 * i + 4,
    ));
}

proof fn lemma_payload_at(values: Seq<F32Bits>, i: int)
    requires
        0 <= i < values.len(),
    ensures
        payload(values).len() == 4 * values.len(),
        payload(values).subrange(4 * i, 4 * i + 4) == little_endian(values[i]),
    decreases values.len(),
{
    let rest = values.drop_last();
    lemma_payload_len(values);
    lemma_payload_len(rest);
    if i < rest.len() {
        lemma_payload_at(rest, i);
        assert(payload(values).subrange(4 * i, 4 * i + 4) =~= payload(rest).subrange(
            4 * i,
            4 * i + 4,
        ));
    } else {
        assert(payload(values).subrange(4 * i, 4 * i + 4) =~= little_endian(values.last()));
    }
}

fn push_text(out: &mut Vec<u8>, text: &str)
    requires
        text.is_ascii(),
    ensures
        final(out)@ == old(out)@ + ascii(text@),
{
    let n: usize = text.unicode_len();
    let mut i: usize = 0;
    while i < n
        invariant
            text.is_ascii(),
            n == text@.len(),
            i <= n,
            out@ == old(out)@ + ascii(text@).take(i as int),
        decreases n - i,
    {
        out.push(text.get_ascii(i));
        i = i + 1;
        assert(out@ =~= old(out)@ + ascii(text@).take(i as int));
    }
    assert(ascii(text@).take(n as int) =~= ascii(text@));
}

fn push_decimal(out: &mut Vec<u8>, n: u64)
    ensures
        final(out)@ == old(out)@ + decimal(n as nat),
    decreases n,
{
    let ghost before = out@;
    if n < 10 {
        out.push(48 + n as u8);
        assert(out@ =~= before + decimal(n as nat));
    } else {
        push_decimal(out, n / 10);
        out.push(48 + (n % 10) as u8);
        assert(out@ =~= before + decimal(n as nat));
    }
}

/// The NumPy file, in format 1.0, of a vector of single-precision values.
#[must_use]
pub fn npy_f32(values: &[F32Bits]) -> (file: Vec<u8>)
    ensures
        file@ == npy(values@),
{
    let n: usize = values.len();
    proof {
        lemma_header_len(n as nat);
        reveal_strlit("{'descr': '<f4', 'fortran_order': False, 'shape': (");
        reveal_strlit(",), }");
    }
    let mut head: Vec<u8> = Vec::new();
    push_text(&mut head, "{'descr': '<f4', 'fortran_order': False, 'shape': (");
    push_decimal(&mut head, n as u64);
    push_text(&mut head, ",), }");
    assert(head@ =~= description(n as nat));
    let pad: usize = (64 - (10 + head.len() + 1) % 64) % 64;
    let mut i: usize = 0;
    while i < pad
        invariant
            i <= pad,
            pad == padding(description(n as nat).len()),
            head@ == description(n as nat) + Seq::new(i as nat, |j: int| 32u8),
        decreases pad - i,
    {
        head.push(32);
        i = i + 1;
        assert(head@ =~= description(n as nat) + Seq::new(i as nat, |j: int| 32u8));
    }
    head.push(10);
    assert(head@ =~= header(n as nat));
    let size: usize = head.len();
    let mut file: Vec<u8> = vec![0x93, 78, 85, 77, 80, 89, 1, 0];
    file.push((size % 256) as u8);
    file.push((size / 256) as u8);
    assert(file@ =~= preamble(size as nat));
    file.append(&mut head);
    let ghost start = file@;
    let mut k: usize = 0;
    while k < n
        invariant
            k <= n,
            n == values@.len(),
            start == preamble(header(n as nat).len()) + header(n as nat),
            file@ == start + payload(values@.take(k as int)),
        decreases n - k,
    {
        let x: u32 = values[k];
        let ghost before = file@;
        file.push((x % 256) as u8);
        file.push((x / 256 % 256) as u8);
        file.push((x / 65536 % 256) as u8);
        file.push((x / 16777216) as u8);
        k = k + 1;
        proof {
            let now = values@.take(k as int);
            assert(now.drop_last() =~= values@.take(k - 1));
            assert(now.last() == x);
            assert(file@ =~= before + little_endian(x));
            assert(file@ =~= start + payload(now));
        }
    }
    assert(values@.take(n as int) =~= values@);
    file
}

} // verus!
