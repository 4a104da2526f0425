//! The numeric buffers that the registry names and owns.
//!
//! A tensor is a shape, a device, one 32-bit pattern per element (the IEEE-754
//! single-precision encoding of the element) and the flag that says whether
//! gradients are tracked for it. The registry never interprets an element: it
//! fills, copies and hands out patterns.

use vstd::prelude::*;
use crate::device::Device;

verus! {

/// The pattern of `0.0`.
pub const ZERO_BITS: u32 = 0;

/// The pattern of `1.0`.
pub const ONE_BITS: u32 = 0x3f80_0000;

/// Number of elements of a tensor of the given shape: the product of its
/// dimensions, 1 for a scalar.
pub open spec fn numel(dims: Seq<i64>) -> int
    decreases dims.len(),
{
    if dims.len() == 0 {
        1
    } else {
        numel(dims.drop_last()) * (dims.last() as int)
    }
}

/// No dimension is negative.
pub open spec fn shape_ok(dims: Seq<i64>) -> bool {
    forall|i: int| 0 <= i < dims.len() ==> dims[i] >= 0
}

/// A buffer of this shape can be allocated: the shape is valid and its element
/// count is a `usize`.
pub open spec fn shape_fits(dims: Seq<i64>) -> bool {
    shape_ok(dims) && numel(dims) <= usize::MAX
}

/// What a tensor is, as a mathematical value.
pub struct TensorView {
    pub dims: Seq<i64>,
    pub device: Device,
    pub data: Seq<u32>,
    pub requires_grad: bool,
}

impl TensorView {
    /// The buffer has exactly one element per position of the shape.
    pub open spec fn wf(self) -> bool {
        shape_fits(self.dims) && self.data.len() == numel(self.dims)
    }

    /// The tensor of the given shape whose elements all hold `bits`.
    pub open spec fn full(dims: Seq<i64>, device: Device, bits: u32) -> TensorView {
        TensorView {
            dims,
            device,
            data: Seq::new(numel(dims) as nat, |i: int| bits),
            requires_grad: false,
        }
    }

    /// The same tensor with gradient tracking switched to `flag`.
    pub open spec fn with_grad(self, flag: bool) -> TensorView {
        TensorView { requires_grad: flag, ..self }
    }

    /// The same tensor holding the elements of `src`.
    pub open spec fn with_data_of(self, src: TensorView) -> TensorView {
        TensorView { data: src.data, ..self }
    }

    /// Why `src` cannot be copied into `self`, if it cannot: the shapes must be
    /// equal, and then the devices.
    pub open spec fn copy_error(self, src: TensorView) -> Option<CopyError> {
        if self.dims != src.dims {
            Some(CopyError::ShapeMismatch)
        } else if self.device != src.device {
            Some(CopyError::DeviceMismatch)
        } else {
            None
        }
    }
}

/// Why an in-place copy was refused.
#[derive(Clone, Copy, Debug, PartialEq, Eq, Structural)]
pub enum CopyError {
    /// Source and destination have different shapes.
    ShapeMismatch,
    /// Source and destination live on different devices.
    DeviceMismatch,
}

/// A handle to a buffer that a registry owns. Handles are cheap to copy, and
/// every copy refers to the same buffer: what the registry writes into the
/// buffer is seen through each of them.
#[derive(Clone, Copy, Debug, PartialEq, Eq, Structural)]
pub struct TensorId {
    /// Position of the buffer among those of its registry.
    pub slot: usize,
}

/// A numeric buffer with its shape, device and gradient flag.
#[derive(Debug)]
pub struct Tensor {
    dims: Vec<i64>,
    device: Device,
    data: Vec<u32>,
    requires_grad: bool,
}

impl View for Tensor {
    type V = TensorView;

    closed spec fn view(&self) -> TensorView {
        TensorView {
            dims: self.dims@,
            device: self.device,
            data: self.data@,
            requires_grad: self.requires_grad,
        }
    }
}

/// A shape with a zero dimension has no elements.
proof fn lemma_numel_zero(dims: Seq<i64>, k: int)
    requires
        0 <= k < dims.len(),
        dims[k] == 0,
    ensures
        numel(dims) == 0,
    decreases dims.len(),
{
    if k == dims.len() - 1 {
        assert(numel(dims.drop_last()) * 0 == 0);
    } else {
        lemma_numel_zero(dims.drop_last(), k);
        assert(0 * (dims.last() as int) == 0);
    }
}

/// With every dimension at least 1, the element count of a prefix of the shape
/// is at least 1 and at most that of the whole shape.
proof fn lemma_numel_prefix(dims: Seq<i64>, i: int)
    requires
        0 <= i <= dims.len(),
        forall|j: int| 0 <= j < dims.len() ==> dims[j] >= 1,
    ensures
        1 <= numel(dims.take(i)) <= numel(dims),
    decreases dims.len() - i,
{
    lemma_numel_positive(dims.take(i));
    if i == dims.len() {
        assert(dims.take(i) =~= dims);
    } else {
        lemma_numel_prefix(dims, i + 1);
        assert(dims.take(i + 1).drop_last() =~= dims.take(i));
        assert(numel(dims.take(i)) <= numel(dims.take(i)) * (dims[i] as int))
            by (nonlinear_arith)
            requires
                numel(dims.take(i)) >= 1,
                dims[i] as int >= 1,
        ;
    }
}

proof fn lemma_numel_positive(dims: Seq<i64>)
    requires
        forall|j: int| 0 <= j < dims.len() ==> dims[j] >= 1,
    ensures
        numel(dims) >= 1,
    decreases dims.len(),
{
    if dims.len() > 0 {
        lemma_numel_positive(dims.drop_last());
        assert(numel(dims.drop_last()) * (dims.last() as int) >= 1) by (nonlinear_arith)
            requires
                numel(dims.drop_last()) >= 1,
                dims.last() as int >= 1,
        ;
    }
}

/// The element count of a shape, where a buffer of that shape can be
/// allocated.
pub fn element_count(dims: &[i64]) -> (r: Option<usize>)
    ensures
        r is Some <==> shape_fits(dims@),
        r matches Some(n) ==> n == numel(dims@),
{
    let mut has_zero = false;
    let mut i: usize = 0;
    while i < dims.len()
        invariant
            i <= dims.len(),
            forall|j: int| 0 <= j < i ==> dims@[j] >= 0,
            has_zero <==> exists|j: int| 0 <= j < i && dims@[j] == 0,
        decreases dims.len() - i,
    {
        if dims[i] < 0 {
            return None;
        }
        if dims[i] == 0 {
            has_zero = true;
        }
        i += 1;
    }
    if has_zero {
        proof {
            let k = choose|j: int| 0 <= j < dims@.len() && dims@[j] == 0;
            lemma_numel_zero(dims@, k);
        }
        return Some(0);
    }
    let mut n: u128 = 1;
    let mut i: usize = 0;
    while i < dims.len()
        invariant
            i <= dims.len(),
            forall|j: int| 0 <= j < dims.len() ==> dims@[j] >= 1,
            n == numel(dims@.take(i as int)),
            n <= usize::MAX,
        decreases dims.len() - i,
    {
        let d: u128 = dims[i] as u128;
        proof {
            assert(dims@.take(i + 1).drop_last() =~= dims@.take(i as int));
            assert(n * d <= 0xffff_ffff_ffff_ffff * 0x7fff_ffff_ffff_ffff) by (nonlinear_arith)
                requires
                    n <= 0xffff_ffff_ffff_ffff,
                    d <= 0x7fff_ffff_ffff_ffff,
            ;
        }
        let p: u128 = n * d;
        if p > usize::MAX as u128 {
            proof {
                lemma_numel_prefix(dims@, i + 1);
            }
            return None;
        }
        n = p;
        i += 1;
    }
    proof {
        assert(dims@.take(dims.len() as int) =~= dims@);
    }
    Some(n as usize)
}

impl Tensor {
    #[verifier::type_invariant]
    pub open spec fn inv(self) -> bool {
        self@.wf()
    }

    /// A tensor of the given shape on `device`, every element holding `bits`,
    /// with gradient tracking off.
    pub fn full(dims: &[i64], device: Device, bits: u32) -> (t: Tensor)
        requires
            shape_fits(dims@),
        ensures
            t@ == TensorView::full(dims@, device, bits),
            t@.wf(),
    {
        let n = match element_count(dims) {
            Some(n) => n,
            None => 0,
        };
        let shape = copy_dims(dims);
        let mut data: Vec<u32> = Vec::new();
        let mut k: usize = 0;
        while k < n
            invariant
                k <= n,
                data@ == Seq::new(k as nat, |i: int| bits),
            decreases n - k,
        {
            data.push(bits);
            k += 1;
        }
        Tensor { dims: shape, device, data, requires_grad: false }
    }

    /// A tensor of zeros.
    pub fn zeros(dims: &[i64], device: Device) -> (t: Tensor)
        requires
            shape_fits(dims@),
        ensures
            t@ == TensorView::full(dims@, device, ZERO_BITS),
            t@.wf(),
    {
        Tensor::full(dims, device, ZERO_BITS)
    }

    /// A tensor of ones.
    pub fn ones(dims: &[i64], device: Device) -> (t: Tensor)
        requires
            shape_fits(dims@),
        ensures
            t@ == TensorView::full(dims@, device, ONE_BITS),
            t@.wf(),
    {
        Tensor::full(dims, device, ONE_BITS)
    }

    /// A tensor of the given shape on `device` holding `data`, with gradient
    /// tracking off; `None` where `data` has not one element per position of
    /// the shape.
    pub fn from_values(dims: &[i64], device: Device, data: Vec<u32>) -> (r: Option<Tensor>)
        ensures
            r is Some <==> shape_fits(dims@) && data@.len() == numel(dims@),
            r matches Some(t) ==> t@ == (TensorView {
                dims: dims@,
                device,
                data: data@,
                requires_grad: false,
            }),
    {
        match element_count(dims) {
            Some(n) => {
                if data.len() != n {
                    return None;
                }
                let shape = copy_dims(dims);
                Some(Tensor { dims: shape, device, data, requires_grad: false })
            },
            None => None,
        }
    }

    /// The shape.
    pub fn size(&self) -> (dims: Vec<i64>)
        ensures
            dims@ == self@.dims,
    {
        copy_dims(self.dims.as_slice())
    }

    /// The device the buffer lives on.
    pub fn device(&self) -> (d: Device)
        ensures
            d == self@.device,
    {
        self.device
    }

    /// Whether gradients are tracked for this tensor.
    pub fn requires_grad(&self) -> (flag: bool)
        ensures
            flag == self@.requires_grad,
    {
        self.requires_grad
    }

    /// The elements, in row-major order.
    pub fn values(&self) -> (data: &[u32])
        ensures
            data@ == self@.data,
    {
        self.data.as_slice()
    }

    /// Switches gradient tracking to `flag`, in place; nothing else changes.
    pub fn set_requires_grad(&mut self, flag: bool)
        ensures
            final(self)@ == old(self)@.with_grad(flag),
    {
        proof {
            use_type_invariant(&*self);
        }
        self.requires_grad = flag;
    }

    /// Copies the elements of `src` into this tensor, in place. The copy is
    /// refused, and the tensor left as it was, where the shapes or the devices
    /// differ. Shape, device and gradient flag are never changed: a copy is not
    /// an operation that gradients flow through.
    pub fn f_copy_(&mut self, src: &Tensor) -> (r: Result<(), CopyError>)
        ensures
            r is Ok <==> old(self)@.copy_error(src@) is None,
            r matches Err(e) ==> old(self)@.copy_error(src@) == Some(e),
            final(self)@ == (if r is Ok {
                old(self)@.with_data_of(src@)
            } else {
                old(self)@
            }),
    {
        proof {
            use_type_invariant(&*self);
            use_type_invariant(src);
        }
        if !same_dims(self.dims.as_slice(), src.dims.as_slice()) {
            return Err(CopyError::ShapeMismatch);
        }
        if self.device != src.device {
            return Err(CopyError::DeviceMismatch);
        }
        self.data = copy_elements(src.data.as_slice());
        Ok(())
    }
}

impl Clone for Tensor {
    /// A tensor of its own with the same shape, device, elements and flag.
    fn clone(&self) -> (t: Tensor)
        ensures
            t@ == self@,
    {
        proof {
            use_type_invariant(self);
        }
        Tensor {
            dims: copy_dims(self.dims.as_slice()),
            device: self.device,
            data: copy_elements(self.data.as_slice()),
            requires_grad: self.requires_grad,
        }
    }
}

fn copy_dims(dims: &[i64]) -> (out: Vec<i64>)
    ensures
        out@ == dims@,
{
    let mut out: Vec<i64> = Vec::new();
    let mut i: usize = 0;
    while i < dims.len()
        invariant
            i <= dims.len(),
            out@ == dims@.take(i as int),
        decreases dims.len() - i,
    {
        out.push(dims[i]);
        i += 1;
    }
    proof {
        assert(dims@.take(dims.len() as int) =~= dims@);
    }
    out
}

fn copy_elements(data: &[u32]) -> (out: Vec<u32>)
    ensures
        out@ == data@,
{
    let mut out: Vec<u32> = Vec::new();
    let mut i: usize = 0;
    while i < data.len()
        invariant
            i <= data.len(),
            out@ == data@.take(i as int),
        decreases data.len() - i,
    {
        out.push(data[i]);
        i += 1;
    }
    proof {
        assert(data@.take(data.len() as int) =~= data@);
    }
    out
}

fn same_dims(a: &[i64], b: &[i64]) -> (r: bool)
    ensures
        r == (a@ == b@),
{
    if a.len() != b.len() {
        return false;
    }
    let mut i: usize = 0;
    while i < a.len()
        invariant
            i <= a.len(),
            a.len() == b.len(),
            a@.take(i as int) == b@.take(i as int),
        decreases a.len() - i,
    {
        if a[i] != b[i] {
            return false;
        }
        proof {
            assert(a@.take(i + 1) =~= a@.take(i as int).push(a@[i as int]));
            assert(b@.take(i + 1) =~= b@.take(i as int).push(b@[i as int]));
        }
        i += 1;
    }
    proof {
        assert(a@.take(a.len() as int) =~= a@);
        assert(b@.take(b.len() as int) =~= b@);
    }
    true
}

} // verus!
