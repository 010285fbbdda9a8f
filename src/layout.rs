//! Sizes of the device buffers of one sort, and the bytes that fill them.
use vstd::arithmetic::div_mod::{
    lemma_fundamental_div_mod, lemma_fundamental_div_mod_converse, lemma_mod_multiples_basic,
};
use vstd::prelude::*;

verus! {

/// Number of parallel lanes in one work-group of the kernel.
pub const WORKGROUP_SIZE: u32 = 64;

/// Number of work-groups to dispatch so that each of `n` elements gets a lane.
pub fn workgroup_count(n: u32) -> (r: u32)
    ensures
        r as int * WORKGROUP_SIZE as int >= n as int,
        (r as int - 1) * (WORKGROUP_SIZE as int) < n as int,
{
    let q: u32 = n / WORKGROUP_SIZE;
    if n % WORKGROUP_SIZE == 0 {
        q
    } else {
        q + 1
    }
}


/// `x` rounded up to the next multiple of `a`.
pub open spec fn round_up(x: int, a: int) -> int {
    ((x + a - 1) / a) * a
}

/// Byte sizes of the buffers of one sort.
#[derive(Debug, Clone, Copy, PartialEq, Eq, Structural)]
pub struct BufferLayout {
    /// Bytes of real data.
    pub logical_size: u64,
    /// Bytes of the device buffers: the data rounded up to the alignment.
    pub padded_size: u64,
    /// Zero bytes that follow the data.
    pub padding_bytes: u64,
}

impl BufferLayout {
    /// The sizes that `count` elements of `width` bytes take under `alignment`.
    pub open spec fn describes(self, width: int, count: int, alignment: int) -> bool {
        &&& self.logical_size == width * count
        &&& self.padded_size == round_up(width * count, alignment)
        &&& self.padding_bytes == self.padded_size - self.logical_size
    }
}

proof fn lemma_round_up(x: int, a: int, g: int)
    requires
        x >= 0,
        a >= 1,
        g == if x % a == 0 { x / a } else { x / a + 1 },
    ensures
        g * a == round_up(x, a),
        x <= g * a <= x + a - 1,
        (g * a) % a == 0,
{
    lemma_fundamental_div_mod(x, a);
    let q = x / a;
    assert(q * a == a * q && (q + 1) * a == a * q + a) by (nonlinear_arith);
    if x % a == 0 {
        lemma_fundamental_div_mod_converse(x + a - 1, a, x / a, a - 1);
    } else {
        lemma_fundamental_div_mod_converse(x + a - 1, a, x / a + 1, x % a - 1);
    }
    assert(g * a == a * g) by (nonlinear_arith);
    lemma_mod_multiples_basic(g, a);
}

/// Plans the buffers for `count` elements of `width` bytes on a device whose
/// storage buffers are aligned to `alignment` bytes.
pub fn plan_layout(width: u64, count: u64, alignment: u32) -> (r: BufferLayout)
    requires
        1 <= width <= 8,
        count <= u32::MAX,
        alignment >= 1,
    ensures
        r.describes(width as int, count as int, alignment as int),
        r.padded_size % (alignment as u64) == 0,
        r.logical_size <= r.padded_size,
        r.padding_bytes < alignment,
{
    let a = alignment as u64;
    assert(width * count <= 8 * 0xffff_ffff) by (nonlinear_arith)
        requires
            1 <= width <= 8,
            count <= 0xffff_ffff,
    ;
    let logical = width * count;
    let groups = if logical % a == 0 {
        logical / a
    } else {
        logical / a + 1
    };
    proof {
        lemma_round_up(logical as int, a as int, groups as int);
    }
    let padded = groups * a;
    BufferLayout { logical_size: logical, padded_size: padded, padding_bytes: padded - logical }
}

/// The input buffer's contents: the data bytes followed by zeros up to the
/// padded size.
pub fn pad_input(data: &Vec<u8>, layout: &BufferLayout) -> (r: Vec<u8>)
    requires
        data@.len() == layout.logical_size,
        layout.padding_bytes == layout.padded_size - layout.logical_size,
        layout.logical_size <= layout.padded_size,
        layout.padded_size <= usize::MAX,
    ensures
        r@ == data@ + Seq::new(layout.padding_bytes as nat, |i: int| 0u8),
        r@.len() == layout.padded_size,
{
    let mut r: Vec<u8> = Vec::new();
    let mut i: usize = 0;
    while i < data.len()
        invariant
            i <= data@.len(),
            r@ == data@.take(i as int),
        decreases data.len() - i,
    {
        r.push(data[i]);
        i = i + 1;
        assert(r@ =~= data@.take(i as int));
    }
    let pad = layout.padding_bytes as usize;
    let mut k: usize = 0;
    while k < pad
        invariant
            k <= pad,
            pad == layout.padding_bytes,
            r@ == data@ + Seq::new(k as nat, |i: int| 0u8),
        decreases pad - k,
    {
        r.push(0u8);
        k = k + 1;
        assert(r@ =~= data@ + Seq::new(k as nat, |i: int| 0u8));
    }
    assert(data@.take(data@.len() as int) =~= data@);
    r
}

/// The data part of a read-back buffer: its first `logical_size` bytes, never
/// the padding after them.
pub fn take_logical(mapped: &[u8], logical_size: usize) -> (r: Vec<u8>)
    requires
        logical_size <= mapped@.len(),
    ensures
        r@ == mapped@.take(logical_size as int),
{
    let n = logical_size;
    let mut r: Vec<u8> = Vec::new();
    let mut i: usize = 0;
    while i < n
        invariant
            n == logical_size,
            n <= mapped@.len(),
            i <= n,
            r@ == mapped@.take(i as int),
        decreases n - i,
    {
        r.push(mapped[i]);
        i = i + 1;
        assert(r@ =~= mapped@.take(i as int));
    }
    r
}

/// The four bytes of `n`, least significant first.
pub open spec fn le_bytes(n: u32) -> Seq<u8> {
    seq![
        (n % 256) as u8,
        ((n / 256) % 256) as u8,
        ((n / 65536) % 256) as u8,
        (n / 16777216) as u8,
    ]
}

/// The four bytes of `n`, most significant first.
pub open spec fn be_bytes(n: u32) -> Seq<u8> {
    seq![
        (n / 16777216) as u8,
        ((n / 65536) % 256) as u8,
        ((n / 256) % 256) as u8,
        (n % 256) as u8,
    ]
}

/// Relies on bytemuck::bytes_of: the in-memory bytes of a `u32`, which are
/// its four bytes in the machine's byte order, little- or big-endian.
#[verifier::external_body]
fn u32_bytes(n: &u32) -> (r: Vec<u8>)
    ensures
        r@ == le_bytes(*n) || r@ == be_bytes(*n),
{
    bytemuck::bytes_of(n).to_vec()
}

/// The length buffer's contents: the element count as one `u32` scalar, in
/// the machine's byte order.
pub fn length_scalar(count: u32) -> (r: Vec<u8>)
    ensures
        r@ == le_bytes(count) || r@ == be_bytes(count),
        r@.len() == 4,
{
    u32_bytes(&count)
}

/// What is read back never shows the padding: whatever the alignment, the
/// data part of a read-back buffer is exactly the `width * count` data bytes,
/// and two buffers that agree on those bytes give the same result.
pub proof fn lemma_padding_not_observed(
    width: int,
    count: int,
    l1: BufferLayout,
    a1: int,
    m1: Seq<u8>,
    l2: BufferLayout,
    a2: int,
    m2: Seq<u8>,
)
    requires
        width >= 1,
        count >= 0,
        a1 >= 1,
        a2 >= 1,
        l1.describes(width, count, a1),
        l2.describes(width, count, a2),
        m1.len() == l1.padded_size,
        m2.len() == l2.padded_size,
        m1.take(width * count) == m2.take(width * count),
    ensures
        m1.take(l1.logical_size as int).len() == width * count,
        m1.take(l1.logical_size as int) == m2.take(l2.logical_size as int),
{
    assert(width * count >= 0) by (nonlinear_arith)
        requires
            width >= 1,
            count >= 0,
    ;
    lemma_round_up_at_least(width * count, a1);
}

proof fn lemma_round_up_at_least(x: int, a: int)
    requires
        x >= 0,
        a >= 1,
    ensures
        round_up(x, a) >= x,
{
    lemma_fundamental_div_mod(x, a);
    let g = if x % a == 0 { x / a } else { x / a + 1 };
    lemma_round_up(x, a, g);
}

} // verus!
