//! Tensors in E4M3 storage: one byte per element and one scale per block.

use vstd::prelude::*;

use crate::config::F32Bits;
use crate::fp16::mag32;
use crate::fp8::e4m3_to_f32;
use crate::fp8::expanded_e4m3;
use crate::fp8::f32_to_e4m3;
use crate::fp8::lemma_expanded_unique;
use crate::fp8::rounded_to_e4m3;

verus! {

/// The contents of a [`Fp8Tensor`].
#[verifier::ext_equal]
pub struct Fp8View {
    pub q: Seq<u8>,
    pub scales: Seq<F32Bits>,
    pub block: usize,
}

/// A quantized tensor: one E4M3 byte per element plus one scale per `block` elements. The
/// default is a single per-tensor scale (`block = n`); per-expert tensors keep `block = expert
/// size`, so that concatenation appends bytes and scales directly.
#[derive(Clone, Debug)]
pub struct Fp8Tensor {
    q: Vec<u8>,
    scales: Vec<F32Bits>,
    block: usize,
}

impl View for Fp8Tensor {
    type V = Fp8View;

    closed spec fn view(&self) -> Fp8View {
        Fp8View { q: self.q@, scales: self.scales@, block: self.block }
    }
}

/// How many blocks of `block` elements hold `n` elements.
pub open spec fn block_count(n: nat, block: nat) -> nat {
    if n % block == 0 {
        n / block
    } else {
        n / block + 1
    }
}

/// Above zero: neither zero, negative nor NaN.
pub open spec fn positive(x: F32Bits) -> bool {
    0 < x <= 0x7f80_0000
}

/// `m` is the largest absolute value in `w`, NaN aside; zero if there is none.
pub open spec fn largest_abs(w: Seq<F32Bits>, m: F32Bits) -> bool {
    &&& m <= 0x7f80_0000
    &&& forall|i: int|
        0 <= i < w.len() && mag32(#[trigger] w[i]) <= 0x7f80_0000 ==> mag32(w[i]) <= m
    &&& m == 0 || exists|i: int| 0 <= i < w.len() && mag32(#[trigger] w[i]) == m
}

impl Fp8View {
    /// Every element has a scale.
    pub open spec fn wf(self) -> bool {
        &&& self.q.len() <= usize::MAX
        &&& self.q.len() == 0 ==> self.scales.len() == 0
        &&& self.q.len() > 0 ==> self.block > 0 && self.scales.len() == block_count(
            self.q.len(),
            self.block as nat,
        )
    }

    pub open spec fn empty() -> Fp8View {
        Fp8View { q: Seq::empty(), scales: Seq::empty(), block: 0 }
    }

    /// The byte of element `i` and the scale of its block.
    pub open spec fn element(self, i: int) -> (u8, F32Bits) {
        (self.q[i], self.scales[i / self.block as int])
    }

    /// All elements in order.
    pub open spec fn elements(self) -> Seq<(u8, F32Bits)> {
        Seq::new(self.q.len(), |i: int| self.element(i))
    }

    pub open spec fn append(self, other: Fp8View) -> Fp8View {
        Fp8View {
            q: self.q + other.q,
            scales: self.scales + other.scales,
            block: self.block,
        }
    }

    /// The concatenation without requantizing, where there is one: one side is empty, or both
    /// have the same block and this side ends on a block boundary.
    pub open spec fn concat(self, other: Fp8View) -> Option<Fp8View> {
        if self.q.len() == 0 {
            Some(other)
        } else if other.q.len() == 0 {
            Some(self)
        } else if self.block == other.block && self.q.len() % self.block as nat == 0 {
            Some(self.append(other))
        } else {
            None
        }
    }
}

/// `terms` holds the expanded byte and the scale of each element.
pub open spec fn dequantized(
    elements: Seq<(u8, F32Bits)>,
    terms: Seq<(F32Bits, F32Bits)>,
) -> bool {
    &&& terms.len() == elements.len()
    &&& forall|i: int|
        0 <= i < terms.len() ==> expanded_e4m3(elements[i].0, (#[trigger] terms[i]).0)
            && terms[i].1 == elements[i].1
}

pub open spec fn tensor_views(parts: Seq<Fp8Tensor>) -> Seq<Fp8View> {
    parts.map_values(|t: Fp8Tensor| t@)
}

/// All parts have the same block, and each ends on a block boundary.
pub open spec fn all_aligned(parts: Seq<Fp8View>, block: usize) -> bool {
    &&& block > 0
    &&& forall|i: int|
        0 <= i < parts.len() ==> (#[trigger] parts[i]).block == block && parts[i].q.len()
            % block as nat == 0
}

/// The bytes and scales of the parts, one after the other.
pub open spec fn append_all(parts: Seq<Fp8View>, block: usize) -> Fp8View
    decreases parts.len(),
{
    if parts.len() == 0 {
        Fp8View { q: Seq::empty(), scales: Seq::empty(), block }
    } else {
        append_all(parts.drop_last(), block).append(parts.last())
    }
}

/// The concatenation of all parts in one pass, where no part needs requantizing.
pub open spec fn concat_all(parts: Seq<Fp8View>) -> Option<Fp8View> {
    if parts.len() == 0 {
        Some(Fp8View::empty())
    } else if all_aligned(parts, parts[0].block) {
        Some(append_all(parts, parts[0].block))
    } else {
        None
    }
}

/// The concatenation of all parts one by one.
pub open spec fn concat_fold(parts: Seq<Fp8View>) -> Option<Fp8View>
    decreases parts.len(),
{
    if parts.len() == 0 {
        Some(Fp8View::empty())
    } else {
        match concat_fold(parts.drop_last()) {
            Some(front) => front.concat(parts.last()),
            None => None,
        }
    }
}

fn append_bytes(dst: &mut Vec<u8>, src: &Vec<u8>)
    ensures
        final(dst)@ == old(dst)@ + src@,
{
    let mut i: usize = 0;
    assert(dst@ =~= old(dst)@ + src@.take(0));
    while i < src.len()
        invariant
            i <= src.len(),
            dst@ == old(dst)@ + src@.take(i as int),
        decreases src.len() - i,
    {
        dst.push(src[i]);
        i = i + 1;
        assert(dst@ =~= old(dst)@ + src@.take(i as int));
    }
    assert(src@.take(i as int) =~= src@);
}

fn append_words(dst: &mut Vec<u32>, src: &Vec<u32>)
    ensures
        final(dst)@ == old(dst)@ + src@,
{
    let mut i: usize = 0;
    assert(dst@ =~= old(dst)@ + src@.take(0));
    while i < src.len()
        invariant
            i <= src.len(),
            dst@ == old(dst)@ + src@.take(i as int),
        decreases src.len() - i,
    {
        dst.push(src[i]);
        i = i + 1;
        assert(dst@ =~= old(dst)@ + src@.take(i as int));
    }
    assert(src@.take(i as int) =~= src@);
}

/// The largest absolute value of a block, NaN aside: its scale maps it to the largest E4M3
/// number.
#[must_use]
pub fn block_max(w: &[F32Bits]) -> (m: F32Bits)
    ensures
        largest_abs(w@, m),
{
    let mut m: u32 = 0;
    let mut i: usize = 0;
    while i < w.len()
        invariant
            i <= w@.len(),
            largest_abs(w@.take(i as int), m),
        decreases w@.len() - i,
    {
        let mag: u32 = w[i] % 0x8000_0000;
        let ghost before = w@.take(i as int);
        let ghost old_m = m;
        if mag <= 0x7f80_0000 && mag > m {
            m = mag;
        }
        i = i + 1;
        proof {
            let now = w@.take(i as int);
            assert forall|k: int|
                0 <= k < now.len() && mag32(#[trigger] now[k]) <= 0x7f80_0000 implies mag32(
                now[k],
            ) <= m by {
                if k < i - 1 {
                    assert(now[k] == before[k]);
                }
            }
            if m == old_m && m != 0 {
                let k = choose|k: int| 0 <= k < before.len() && mag32(#[trigger] before[k]) == m;
                assert(now[k] == before[k]);
            } else if m != 0 {
                assert(mag32(now[i - 1]) == m);
            }
        }
    }
    assert(w@.take(i as int) =~= w@);
    m
}

impl Default for Fp8Tensor {
    fn default() -> (t: Fp8Tensor)
        ensures
            t@ == Fp8View::empty(),
    {
        let t = Fp8Tensor { q: Vec::new(), scales: Vec::new(), block: 0 };
        assert(t@ =~= Fp8View::empty());
        t
    }
}

impl Fp8Tensor {
    pub open spec fn wf(&self) -> bool {
        self@.wf()
    }

    /// Quantizes with one scale per `block` elements. `quotients` holds each weight divided by
    /// the scale of its block; where the scale is not positive, the element is zero.
    pub fn quantize_block(quotients: &[F32Bits], scales: Vec<F32Bits>, block: usize) -> (t:
        Fp8Tensor)
        requires
            scales.len() == block_count(
                quotients@.len(),
                (if block > 1 {
                    block
                } else {
                    1
                }) as nat,
            ),
        ensures
            t.wf(),
            t@.block == if block > 1 {
                block
            } else {
                1
            },
            t@.scales == scales@,
            t@.q.len() == quotients@.len(),
            forall|i: int|
                0 <= i < quotients@.len() ==> if positive(scales[i / t@.block as int]) {
                    rounded_to_e4m3(quotients@[i], #[trigger] t@.q[i])
                } else {
                    t@.q[i] == 0
                },
    {
        let block: usize = if block > 1 {
            block
        } else {
            1
        };
        let n: usize = quotients.len();
        let mut q: Vec<u8> = Vec::new();
        let mut i: usize = 0;
        while i < n
            invariant
                i <= n,
                n == quotients@.len(),
                block > 0,
                scales.len() == block_count(n as nat, block as nat),
                q.len() == i,
                forall|k: int|
                    0 <= k < i ==> if positive(scales[k / block as int]) {
                        rounded_to_e4m3(quotients@[k], #[trigger] q[k])
                    } else {
                        q[k] == 0
                    },
            decreases n - i,
        {
            proof {
                lemma_block_index(n as int, block as int, i as int);
            }
            let scale: u32 = scales[i / block];
            if scale > 0 && scale <= 0x7f80_0000 {
                q.push(f32_to_e4m3(quotients[i]));
            } else {
                q.push(0);
            }
            i = i + 1;
        }
        proof {
            if n == 0 {
                assert(0nat % block as nat == 0 && 0nat / block as nat == 0) by {
                    vstd::arithmetic::div_mod::lemma_small_mod(0, block as nat);
                    vstd::arithmetic::div_mod::lemma_div_basics(block as int);
                }
            }
        }
        Fp8Tensor { q, scales, block }
    }

    /// Quantizes with a single per-tensor scale.
    pub fn quantize(quotients: &[F32Bits], scale: F32Bits) -> (t: Fp8Tensor)
        ensures
            t.wf(),
            t@.q.len() == quotients@.len(),
            quotients@.len() == 0 ==> t@ == Fp8View::empty(),
            quotients@.len() > 0 ==> t@.block == quotients@.len() && t@.scales == seq![scale],
            forall|i: int|
                0 <= i < quotients@.len() ==> if positive(scale) {
                    rounded_to_e4m3(quotients@[i], #[trigger] t@.q[i])
                } else {
                    t@.q[i] == 0
                },
    {
        let n: usize = quotients.len();
        if n == 0 {
            return Fp8Tensor::default();
        }
        let mut scales: Vec<u32> = Vec::new();
        scales.push(scale);
        proof {
            assert(n as int / n as int == 1 && n as int % n as int == 0) by {
                vstd::arithmetic::div_mod::lemma_div_by_self(n as int);
                vstd::arithmetic::div_mod::lemma_mod_self_0(n as int);
            }
        }
        let t = Fp8Tensor::quantize_block(quotients, scales, n);
        proof {
            assert(t@.scales =~= seq![scale]);
            assert forall|i: int| 0 <= i < quotients@.len() implies if positive(scale) {
                rounded_to_e4m3(quotients@[i], #[trigger] t@.q[i])
            } else {
                t@.q[i] == 0
            } by {
                vstd::arithmetic::div_mod::lemma_basic_div(i, n as int);
            }
        }
        t
    }

    /// The expanded byte and the scale of each element; the weight is their product.
    pub fn dequantize(&self) -> (terms: Vec<(F32Bits, F32Bits)>)
        requires
            self.wf(),
        ensures
            dequantized(self@.elements(), terms@),
    {
        let mut terms: Vec<(u32, u32)> = Vec::new();
        let mut i: usize = 0;
        while i < self.q.len()
            invariant
                self.wf(),
                i <= self.q.len(),
                terms.len() == i,
                forall|k: int|
                    0 <= k < i ==> expanded_e4m3(self@.element(k).0, (#[trigger] terms[k]).0)
                        && terms[k].1 == self@.element(k).1,
            decreases self.q.len() - i,
        {
            proof {
                lemma_block_index(self.q.len() as int, self.block as int, i as int);
            }
            terms.push((e4m3_to_f32(self.q[i]), self.scales[i / self.block]));
            i = i + 1;
        }
        terms
    }

    /// Number of stored elements.
    #[must_use]
    pub fn len(&self) -> (n: usize)
        ensures
            n == self@.q.len(),
    {
        self.q.len()
    }

    /// True when no elements are stored.
    #[must_use]
    pub fn is_empty(&self) -> (b: bool)
        ensures
            b == (self@.q.len() == 0),
    {
        self.q.len() == 0
    }

    /// Byte size of the packed payload (without scales).
    #[must_use]
    pub fn byte_size(&self) -> (n: usize)
        ensures
            n == self@.q.len(),
    {
        self.q.len()
    }

    /// The packed bytes.
    #[must_use]
    pub fn bytes(&self) -> (q: &Vec<u8>)
        ensures
            q@ == self@.q,
    {
        &self.q
    }

    /// Elements per scale block.
    #[must_use]
    pub fn block(&self) -> (n: usize)
        ensures
            n == self@.block,
    {
        self.block
    }

    /// Per-block scales (one per `block` elements).
    #[must_use]
    pub fn scales(&self) -> (s: &Vec<F32Bits>)
        ensures
            s@ == self@.scales,
    {
        &self.scales
    }

    fn copy(&self) -> (t: Fp8Tensor)
        ensures
            t@ == self@,
    {
        let mut q: Vec<u8> = Vec::new();
        append_bytes(&mut q, &self.q);
        let mut scales: Vec<u32> = Vec::new();
        append_words(&mut scales, &self.scales);
        let t = Fp8Tensor { q, scales, block: self.block };
        assert(t@ =~= self@);
        t
    }

    /// Concatenates two quantized tensors. When both use the same block size and `self` ends on
    /// a block boundary, bytes and scales are appended: exact. `None` when the parts have to be
    /// expanded and quantized again.
    pub fn concat(&self, other: &Fp8Tensor) -> (r: Option<Fp8Tensor>)
        requires
            self.wf(),
            other.wf(),
            self@.q.len() + other@.q.len() <= usize::MAX,
        ensures
            match r {
                Some(t) => self@.concat(other@) == Some(t@) && t.wf(),
                None => self@.concat(other@) is None,
            },
    {
        if self.q.len() == 0 {
            return Some(other.copy());
        }
        if other.q.len() == 0 {
            return Some(self.copy());
        }
        if self.block == other.block && self.q.len() % self.block == 0 {
            let mut t = self.copy();
            append_bytes(&mut t.q, &other.q);
            append_words(&mut t.scales, &other.scales);
            proof {
                assert(t@ =~= self@.append(other@));
                lemma_append_wf(self@, other@);
            }
            return Some(t);
        }
        None
    }

    /// Appends all parts in one pass. `None` when some part has to be expanded and quantized
    /// again.
    pub fn concat_many(parts: &Vec<Fp8Tensor>) -> (r: Option<Fp8Tensor>)
        requires
            forall|i: int| 0 <= i < parts.len() ==> (#[trigger] parts[i]).wf(),
        ensures
            match r {
                Some(t) => concat_all(tensor_views(parts@)) == Some(t@) && t.wf(),
                None => concat_all(tensor_views(parts@)) is None,
            },
    {
        let ghost views = tensor_views(parts@);
        if parts.len() == 0 {
            return Some(Fp8Tensor::default());
        }
        let block: usize = parts[0].block;
        assert(views[0] == parts[0]@);
        if block == 0 {
            return None;
        }
        let mut i: usize = 0;
        while i < parts.len()
            invariant
                i <= parts.len(),
                parts.len() > 0,
                views == tensor_views(parts@),
                block > 0,
                block == views[0].block,
                forall|k: int|
                    0 <= k < i ==> (#[trigger] views[k]).block == block && views[k].q.len()
                        % block as nat == 0,
            decreases parts.len() - i,
        {
            assert(views[i as int] == parts[i as int]@);
            if parts[i].block != block || parts[i].q.len() % block != 0 {
                return None;
            }
            i = i + 1;
        }
        let mut t = Fp8Tensor { q: Vec::new(), scales: Vec::new(), block };
        let mut j: usize = 0;
        assert(t@ =~= append_all(views.take(0), block));
        while j < parts.len()
            invariant
                j <= parts.len(),
                views == tensor_views(parts@),
                t@ == append_all(views.take(j as int), block),
                t.block == block,
            decreases parts.len() - j,
        {
            let ghost before = t@;
            append_bytes(&mut t.q, &parts[j].q);
            append_words(&mut t.scales, &parts[j].scales);
            assert(t@ =~= before.append(parts[j as int]@));
            j = j + 1;
            assert(views.take(j as int).drop_last() =~= views.take(j - 1));
            assert(views.take(j as int).last() == parts[j - 1]@);
        }
        assert(views.take(j as int) =~= views);
        proof {
            assert forall|k: int| 0 <= k < views.len() implies (#[trigger] views[k]).wf() by {
                assert(parts[k].wf());
            }
            lemma_fold_from(views, block);
            assert(t@.q.len() == t.q.len());
        }
        Some(t)
    }
}

proof fn lemma_block_index(n: int, block: int, i: int)
    requires
        block > 0,
        0 <= i < n,
    ensures
        0 <= i / block < block_count(n as nat, block as nat),
{
    vstd::arithmetic::div_mod::lemma_fundamental_div_mod(i, block);
    vstd::arithmetic::div_mod::lemma_fundamental_div_mod(n, block);
    vstd::arithmetic::div_mod::lemma_mod_bound(i, block);
    vstd::arithmetic::div_mod::lemma_mod_bound(n, block);
    let a = i / block;
    let b = n / block;
    assert(a >= 0) by {
        vstd::arithmetic::div_mod::lemma_div_pos_is_pos(i, block);
    }
    assert(a <= b && (n % block == 0 ==> a < b)) by (nonlinear_arith)
        requires
            i == block * a + i % block,
            n == block * b + n % block,
            0 <= i % block < block,
            0 <= n % block < block,
            i < n,
            block > 0,
    ;
}

proof fn lemma_append_wf(a: Fp8View, b: Fp8View)
    requires
        a.wf(),
        b.wf(),
        a.q.len() > 0,
        b.q.len() > 0,
        a.block == b.block,
        a.q.len() % a.block as nat == 0,
        a.q.len() + b.q.len() <= usize::MAX,
    ensures
        a.append(b).wf(),
{
    let n = a.q.len() as int;
    let m = b.q.len() as int;
    let k = a.block as int;
    vstd::arithmetic::div_mod::lemma_fundamental_div_mod(n, k);
    let c = n / k;
    assert(n == k * c);
    vstd::arithmetic::div_mod::lemma_hoist_over_denominator(m, c, k as nat);
    vstd::arithmetic::div_mod::lemma_mod_multiples_vanish(c, m, k);
    assert(c * k == k * c) by (nonlinear_arith);
}

/// Concatenation keeps every element: byte and scale of each stay what they were.
pub proof fn lemma_concat_keeps_elements(a: Fp8View, b: Fp8View, i: int)
    requires
        a.wf(),
        b.wf(),
        a.concat(b) is Some,
        0 <= i < a.q.len() + b.q.len(),
    ensures
        a.concat(b)->0.q.len() == a.q.len() + b.q.len(),
        a.concat(b)->0.element(i) == if i < a.q.len() {
            a.element(i)
        } else {
            b.element(i - a.q.len())
        },
{
    if a.q.len() > 0 && b.q.len() > 0 {
        lemma_appended_element(a, b, i);
    }
}

/// Elements of all parts together.
pub open spec fn total_len(parts: Seq<Fp8View>) -> nat
    decreases parts.len(),
{
    if parts.len() == 0 {
        0
    } else {
        total_len(parts.drop_last()) + parts.last().q.len()
    }
}

/// Joining aligned parts keeps the block size and joins the bytes, the scales and the elements:
/// each element keeps its byte and its scale.
pub proof fn lemma_concat_many_joins(parts: Seq<Fp8View>)
    requires
        parts.len() > 0,
        forall|i: int| 0 <= i < parts.len() ==> (#[trigger] parts[i]).wf(),
        all_aligned(parts, parts[0].block),
    ensures
        concat_all(parts) is Some,
        concat_all(parts)->0.block == parts[0].block,
        concat_all(parts)->0.q.len() == total_len(parts),
        concat_all(parts)->0.q == parts.map_values(|p: Fp8View| p.q).flatten(),
        concat_all(parts)->0.scales == parts.map_values(|p: Fp8View| p.scales).flatten(),
        concat_all(parts)->0.elements() == parts.map_values(
            |p: Fp8View| p.elements(),
        ).flatten(),
{
    lemma_joins_from(parts, parts[0].block);
    lemma_fold_from(parts, parts[0].block);
    parts.map_values(|p: Fp8View| p.q).lemma_flatten_and_flatten_alt_are_equivalent();
    parts.map_values(|p: Fp8View| p.scales).lemma_flatten_and_flatten_alt_are_equivalent();
    parts.map_values(|p: Fp8View| p.elements()).lemma_flatten_and_flatten_alt_are_equivalent();
}

/// Dequantizing has one result, bit for bit.
pub proof fn lemma_dequantized_unique(
    elements: Seq<(u8, F32Bits)>,
    a: Seq<(F32Bits, F32Bits)>,
    b: Seq<(F32Bits, F32Bits)>,
)
    requires
        dequantized(elements, a),
        dequantized(elements, b),
    ensures
        a == b,
{
    assert forall|i: int| 0 <= i < a.len() implies a[i] == b[i] by {
        lemma_expanded_unique(elements[i].0, a[i].0, b[i].0);
    }
    assert(a =~= b);
}

/// Dequantizing joined parts gives what dequantizing each part gives, one after the other, bit
/// for bit.
pub proof fn lemma_concat_many_dequantizes(
    parts: Seq<Fp8View>,
    part_terms: Seq<Seq<(F32Bits, F32Bits)>>,
    terms: Seq<(F32Bits, F32Bits)>,
)
    requires
        parts.len() > 0,
        forall|i: int| 0 <= i < parts.len() ==> (#[trigger] parts[i]).wf(),
        all_aligned(parts, parts[0].block),
        part_terms.len() == parts.len(),
        forall|i: int|
            0 <= i < parts.len() ==> dequantized(
                (#[trigger] parts[i]).elements(),
                part_terms[i],
            ),
        dequantized(concat_all(parts)->0.elements(), terms),
    ensures
        terms == part_terms.flatten(),
{
    let es = parts.map_values(|p: Fp8View| p.elements());
    lemma_concat_many_joins(parts);
    es.lemma_flatten_and_flatten_alt_are_equivalent();
    part_terms.lemma_flatten_and_flatten_alt_are_equivalent();
    assert forall|i: int| 0 <= i < es.len() implies dequantized(
        #[trigger] es[i],
        part_terms[i],
    ) by {
        assert(es[i] == parts[i].elements());
    }
    lemma_dequantized_flat(es, part_terms);
    lemma_dequantized_unique(es.flatten_alt(), terms, part_terms.flatten_alt());
}

proof fn lemma_dequantized_flat(
    es: Seq<Seq<(u8, F32Bits)>>,
    ts: Seq<Seq<(F32Bits, F32Bits)>>,
)
    requires
        es.len() == ts.len(),
        forall|i: int| 0 <= i < es.len() ==> dequantized(#[trigger] es[i], ts[i]),
    ensures
        dequantized(es.flatten_alt(), ts.flatten_alt()),
    decreases es.len(),
{
    if es.len() > 0 {
        lemma_dequantized_flat(es.drop_last(), ts.drop_last());
        assert(dequantized(es[es.len() - 1], ts[es.len() - 1]));
    }
}

proof fn lemma_joins_from(parts: Seq<Fp8View>, block: usize)
    requires
        forall|i: int| 0 <= i < parts.len() ==> (#[trigger] parts[i]).wf(),
        all_aligned(parts, block),
    ensures
        append_all(parts, block).q.len() == total_len(parts),
        append_all(parts, block).q == parts.map_values(|p: Fp8View| p.q).flatten_alt(),
        append_all(parts, block).scales == parts.map_values(|p: Fp8View| p.scales).flatten_alt(),
        append_all(parts, block).elements() == parts.map_values(
            |p: Fp8View| p.elements(),
        ).flatten_alt(),
    decreases parts.len(),
{
    let qs = parts.map_values(|p: Fp8View| p.q);
    let ss = parts.map_values(|p: Fp8View| p.scales);
    let es = parts.map_values(|p: Fp8View| p.elements());
    if parts.len() == 0 {
        assert(append_all(parts, block).elements() =~= Seq::empty());
    } else {
        let front = parts.drop_last();
        let last = parts.last();
        assert(parts[parts.len() - 1] == last);
        assert forall|i: int| 0 <= i < front.len() implies (#[trigger] front[i]).wf()
            && front[i].block == block && front[i].q.len() % block as nat == 0 by {
            assert(parts[i] == front[i]);
        }
        lemma_joins_from(front, block);
        lemma_fold_from(front, block);
        assert(qs.drop_last() =~= front.map_values(|p: Fp8View| p.q));
        assert(ss.drop_last() =~= front.map_values(|p: Fp8View| p.scales));
        assert(es.drop_last() =~= front.map_values(|p: Fp8View| p.elements()));
        let f = append_all(front, block);
        let all = append_all(parts, block);
        assert(all == f.append(last));
        assert(all.elements() =~= f.elements() + last.elements()) by {
            assert forall|i: int| 0 <= i < all.q.len() implies #[trigger] all.element(i) == if i
                < f.q.len() {
                f.element(i)
            } else {
                last.element(i - f.q.len())
            } by {
                lemma_appended_element(f, last, i);
            }
        }
    }
}

/// Element `i` of two parts, the first of which fills its blocks.
proof fn lemma_appended_element(a: Fp8View, b: Fp8View, i: int)
    requires
        a.block > 0,
        a.block == b.block,
        a.q.len() % a.block as nat == 0,
        a.scales.len() == a.q.len() / a.block as nat,
        b.q.len() > 0 ==> b.scales.len() == block_count(b.q.len(), b.block as nat),
        0 <= i < a.q.len() + b.q.len(),
    ensures
        a.append(b).element(i) == if i < a.q.len() {
            a.element(i)
        } else {
            b.element(i - a.q.len())
        },
{
    let n = a.q.len() as int;
    let k = a.block as int;
    vstd::arithmetic::div_mod::lemma_fundamental_div_mod(n, k);
    let c = n / k;
    assert(c * k == k * c) by (nonlinear_arith);
    if i < n {
        lemma_block_index(n, k, i);
    } else {
        vstd::arithmetic::div_mod::lemma_hoist_over_denominator(i - n, c, k as nat);
        lemma_block_index(b.q.len() as int, k, i - n);
    }
}

/// One pass over aligned parts gives what concatenating them one by one gives.
pub proof fn lemma_concat_many_is_fold(parts: Seq<Fp8View>)
    requires
        parts.len() > 0,
        forall|i: int| 0 <= i < parts.len() ==> (#[trigger] parts[i]).wf(),
        all_aligned(parts, parts[0].block),
    ensures
        concat_fold(parts) == concat_all(parts),
{
    lemma_fold_from(parts, parts[0].block);
}

proof fn lemma_fold_from(parts: Seq<Fp8View>, block: usize)
    requires
        forall|i: int| 0 <= i < parts.len() ==> (#[trigger] parts[i]).wf(),
        all_aligned(parts, block),
    ensures
        parts.len() > 0 ==> concat_fold(parts) == Some(append_all(parts, block)),
        append_all(parts, block).q.len() % block as nat == 0,
        append_all(parts, block).q.len() == 0 ==> append_all(parts, block).scales.len() == 0,
        append_all(parts, block).block == block,
        append_all(parts, block).scales.len() == append_all(parts, block).q.len() / block as nat,
        append_all(parts, block).q.len() <= usize::MAX ==> append_all(parts, block).wf(),
    decreases parts.len(),
{
    if parts.len() > 0 {
        let front = parts.drop_last();
        let last = parts.last();
        assert(parts[parts.len() - 1] == last);
        assert forall|i: int| 0 <= i < front.len() implies (#[trigger] front[i]).wf()
            && front[i].block == block && front[i].q.len() % block as nat == 0 by {
            assert(parts[i] == front[i]);
        }
        lemma_fold_from(front, block);
        let f = append_all(front, block);
        let all = append_all(parts, block);
        lemma_scale_counts(f.q.len(), last.q.len(), block as nat);
        vstd::arithmetic::div_mod::lemma_mod_adds(
            f.q.len() as int,
            last.q.len() as int,
            block as int,
        );
        vstd::arithmetic::div_mod::lemma_fundamental_div_mod(
            (f.q.len() + last.q.len()) as int,
            block as int,
        );
        if f.q.len() == 0 {
            assert(all =~= last) by {
                assert(f.q =~= Seq::empty());
                assert(f.scales =~= Seq::empty());
                assert(all.q =~= last.q);
                assert(all.scales =~= last.scales);
            }
        } else if last.q.len() == 0 {
            assert(all =~= f) by {
                assert(all.q =~= f.q);
                assert(all.scales =~= f.scales);
            }
        }
        if f.q.len() > 0 && last.q.len() > 0 && all.q.len() <= usize::MAX {
            lemma_append_wf(f, last);
        }
        if front.len() == 0 {
            assert(concat_fold(front) == Some(Fp8View::empty()));
            assert(Fp8View::empty().concat(last) == Some(last));
            assert(f.q.len() == 0);
        }
    } else {
        vstd::arithmetic::div_mod::lemma_small_mod(0, block as nat);
        vstd::arithmetic::div_mod::lemma_div_basics(block as int);
    }
}

/// Full blocks add up.
proof fn lemma_scale_counts(n: nat, m: nat, block: nat)
    requires
        block > 0,
        n % block == 0,
    ensures
        (n + m) / block == n / block + m / block,
        m == 0 ==> m / block == 0,
{
    vstd::arithmetic::div_mod::lemma_fundamental_div_mod(n as int, block as int);
    let c = n as int / block as int;
    assert(c * block == block * c) by (nonlinear_arith);
    vstd::arithmetic::div_mod::lemma_hoist_over_denominator(m as int, c, block);
    vstd::arithmetic::div_mod::lemma_div_basics(block as int);
}

} // verus!
