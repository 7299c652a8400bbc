//! Tensors in a buffer, read by strides.

use burn_backend::DType;
use cubecl::Device;
use vstd::prelude::*;

verus! {

/// The element types of tensors. The type is that of `burn-backend`; nothing is
/// said of its values.
#[verifier::external_type_specification]
#[verifier::external_body]
pub struct ExDType(DType);

/// The devices of the runtimes. The type is that of `cubecl`; nothing is said
/// of its values.
#[verifier::external_type_specification]
#[verifier::external_body]
pub struct ExDevice(Device);

/// `Device::clone` gives the same device again.
pub assume_specification[ <Device as Clone>::clone ](device: &Device) -> (copy: Device)
    ensures
        copy == *device,
;

/// A tensor: the size and the stride of each dim, the buffer that holds the
/// elements, the type under which the device stores them, and that device.
#[derive(Debug)]
pub struct CubeTensor<E> {
    pub shape: Vec<usize>,
    pub strides: Vec<usize>,
    pub data: Vec<E>,
    pub dtype: DType,
    pub device: Device,
}

impl<E> CubeTensor<E> {
    /// Whether a tensor of four dims has an element at these coordinates.
    pub open spec fn has(self, a: int, b: int, c: int, d: int) -> bool {
        &&& 0 <= a < self.shape@[0]
        &&& 0 <= b < self.shape@[1]
        &&& 0 <= c < self.shape@[2]
        &&& 0 <= d < self.shape@[3]
    }

    /// Where in the buffer a tensor of four dims holds the element at these
    /// coordinates.
    pub open spec fn offset(self, a: int, b: int, c: int, d: int) -> int {
        a * self.strides@[0] + b * self.strides@[1] + c * self.strides@[2] + d * self.strides@[3]
    }

    /// The element at these coordinates.
    pub open spec fn at(self, a: int, b: int, c: int, d: int) -> E {
        self.data@[self.offset(a, b, c, d)]
    }

    /// Whether this is a tensor of four dims whose buffer holds every element.
    pub open spec fn is_4d(self) -> bool {
        &&& self.shape@.len() == 4
        &&& self.strides@.len() == 4
        &&& forall|a: int, b: int, c: int, d: int|
            self.has(a, b, c, d) ==> #[trigger] self.offset(a, b, c, d) < self.data@.len()
    }
}

} // verus!
