//! Sizing the vertex data that is handed to the driver.
//!
//! A vertex buffer is a flat array of components in which each vertex takes a
//! fixed number of components (its stride), laid out as consecutive
//! attributes. The driver is told byte sizes, attribute offsets and vertex
//! counts; this module computes them, totally and without overflow.

use vstd::prelude::*;

verus! {

/// The size in bytes of a buffer of `elems` elements of `elem_size` bytes
/// each, when that size exists at all.
pub fn buffer_byte_size(elems: usize, elem_size: usize) -> (r: Option<usize>)
    ensures
        r is Some <==> elems * elem_size <= usize::MAX,
        r matches Some(n) ==> n == elems * elem_size,
{
    elems.checked_mul(elem_size)
}

/// How many whole vertices a buffer of `total_components` components holds
/// when each vertex takes `stride` components: defined exactly when the
/// stride is positive and divides the total.
pub fn draw_count(total_components: usize, stride: usize) -> (r: Option<usize>)
    ensures
        r is Some <==> stride > 0 && total_components % stride == 0,
        r matches Some(n) ==> n == total_components / stride && n * stride == total_components,
{
    if stride == 0 {
        return None;
    }
    if total_components % stride != 0 {
        return None;
    }
    let n = total_components / stride;
    proof {
        vstd::arithmetic::div_mod::lemma_fundamental_div_mod(
            total_components as int,
            stride as int,
        );
        assert(n as int * stride as int == stride as int * n as int) by (nonlinear_arith);
    }
    Some(n)
}

/// The number of components that the first `i` attributes of `sizes` take
/// together.
pub open spec fn components_before(sizes: Seq<usize>, i: int) -> int
    decreases i,
{
    if i <= 0 {
        0
    } else {
        components_before(sizes, i - 1) + sizes[i - 1]
    }
}

/// Taking more attributes never takes fewer components.
proof fn lemma_components_before_monotonic(sizes: Seq<usize>, i: int, j: int)
    requires
        0 <= i <= j <= sizes.len(),
    ensures
        components_before(sizes, i) <= components_before(sizes, j),
    decreases j - i,
{
    if i < j {
        lemma_components_before_monotonic(sizes, i, j - 1);
    }
}

/// How one vertex is laid out: the component count of each attribute, the
/// component offset where each attribute starts, and the stride — the
/// components one whole vertex takes.
pub struct VertexLayout {
    pub sizes: Vec<usize>,
    pub offsets: Vec<usize>,
    pub stride: usize,
}

impl VertexLayout {
    /// A layout is well formed when each attribute starts where the previous
    /// ones end and the stride is the total.
    pub open spec fn wf(self) -> bool {
        self.offsets@.len() == self.sizes@.len() && (forall|i: int|
            0 <= i < self.sizes@.len() ==> self.offsets@[i] == components_before(self.sizes@, i))
            && self.stride == components_before(self.sizes@, self.sizes@.len() as int)
    }

    /// Lay consecutive attributes of the given component counts out in one
    /// vertex: each attribute's offset is the sum of the sizes before it, and
    /// the stride is the sum of them all. The layout exists exactly when that
    /// total fits.
    pub fn plan(sizes: Vec<usize>) -> (r: Option<VertexLayout>)
        ensures
            r is Some <==> components_before(sizes@, sizes@.len() as int) <= usize::MAX,
            r matches Some(l) ==> l.sizes == sizes && l.wf(),
    {
        let n = sizes.len();
        let mut offsets: Vec<usize> = Vec::new();
        let mut acc: usize = 0;
        let mut i: usize = 0;
        while i < n
            invariant
                n == sizes@.len(),
                i <= n,
                offsets@.len() == i,
                forall|k: int| 0 <= k < i ==> offsets@[k] == components_before(sizes@, k),
                acc == components_before(sizes@, i as int),
            decreases n - i,
        {
            offsets.push(acc);
            let next = match acc.checked_add(sizes[i]) {
                Some(v) => v,
                None => {
                    proof {
                        lemma_components_before_monotonic(sizes@, i + 1, sizes@.len() as int);
                    }
                    return None;
                },
            };
            acc = next;
            i += 1;
        }
        Some(VertexLayout { sizes, offsets, stride: acc })
    }
}

} // verus!
