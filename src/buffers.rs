use vstd::prelude::*;

verus! {

/// Record `i` of a buffer cut into records of `stride` values.
pub open spec fn record<T>(data: Seq<T>, stride: int, i: int) -> Seq<T> {
    data.subrange(i * stride, (i + 1) * stride)
}

/// Cuts `data` into consecutive records of `stride` values each. A buffer
/// whose length is not a multiple of the stride is malformed and yields
/// `None`: it is ignored in full, never in part.
pub fn split_records<T: Copy>(data: &[T], stride: usize) -> (r: Option<Vec<Vec<T>>>)
    requires
        stride > 0,
    ensures
        r is None <==> data@.len() % (stride as nat) != 0,
        r matches Some(rs) ==> {
            &&& rs@.len() * stride == data@.len()
            &&& forall|i: int|
                0 <= i < rs@.len() ==> #[trigger] rs@[i]@ == record(data@, stride as int, i)
        },
{
    let len = data.len();
    if len % stride != 0 {
        return None;
    }
    let n = len / stride;
    assert(n * stride == len) by (nonlinear_arith)
        requires
            n == len / stride,
            len % stride == 0,
            stride > 0,
    ;
    let mut out: Vec<Vec<T>> = Vec::new();
    let mut i: usize = 0;
    while i < n
        invariant
            stride > 0,
            len == data@.len(),
            n * stride == len,
            i <= n,
            out@.len() == i,
            forall|k: int| 0 <= k < i ==> #[trigger] out@[k]@ == record(data@, stride as int, k),
        decreases n - i,
    {
        assert(i * stride + stride <= n * stride) by (nonlinear_arith)
            requires
                i < n,
                stride > 0,
        ;
        let start: usize = i * stride;
        let mut rec: Vec<T> = Vec::new();
        let mut j: usize = 0;
        assert(rec@ =~= data@.subrange(start as int, start as int));
        while j < stride
            invariant
                stride > 0,
                len == data@.len(),
                start + stride <= len,
                j <= stride,
                rec@ == data@.subrange(start as int, start + j),
            decreases stride - j,
        {
            rec.push(data[start + j]);
            j = j + 1;
            assert(rec@ =~= data@.subrange(start as int, start + j));
        }
        assert((i as int + 1) * stride == start + stride) by (nonlinear_arith)
            requires
                start == i * stride,
        ;
        out.push(rec);
        i = i + 1;
    }
    Some(out)
}

/// Values per node record: id, x, y, w, h, vx, vy, flags.
pub const NODE_STRIDE: usize = 8;
/// Values per particle record: x, y, vx, vy, radius, life.
pub const PARTICLE_STRIDE: usize = 6;
/// Values in a constraints buffer: left, top, right, bottom, gridX, gridY,
/// inertia, damping.
pub const CONSTRAINTS_STRIDE: usize = 8;
/// Values in a tap parameter buffer.
pub const TAP_PARAMS_STRIDE: usize = 4;
/// Values in a particle parameter buffer.
pub const PARTICLE_PARAMS_STRIDE: usize = 4;

/// How a pointer buffer is laid out: values per sample, and the position of
/// the button mask within a sample.
#[derive(Clone, Copy, Debug, PartialEq, Eq, Structural)]
pub struct PointerLayout {
    pub stride: usize,
    pub buttons_at: usize,
}

/// The layout of a pointer buffer of `len` values. Samples carry a pressure
/// (five values, buttons last) when `len` is a multiple of five, else none
/// (four values); a length that fits neither is malformed.
pub fn pointer_layout(len: usize) -> (r: Option<PointerLayout>)
    ensures
        len % 5 == 0 ==> r == Some(PointerLayout { stride: 5, buttons_at: 4 }),
        len % 5 != 0 && len % 4 == 0 ==> r == Some(PointerLayout { stride: 4, buttons_at: 3 }),
        len % 5 != 0 && len % 4 != 0 ==> r is None,
{
    if len % 5 == 0 {
        Some(PointerLayout { stride: 5, buttons_at: 4 })
    } else if len % 4 == 0 {
        Some(PointerLayout { stride: 4, buttons_at: 3 })
    } else {
        None
    }
}

} // verus!
