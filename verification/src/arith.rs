//! What the element operations of a generic `T` promise.
//!
//! The kernels of this crate are generic over the element type. For the
//! integer types, vstd states that `+`, `-` and `*` compute the mathematical
//! result when it fits (`obeys_*_spec`), and what each operation demands
//! (`*_req`, no overflow). For other element types nothing is known of the
//! values; then an operation can only be permitted for every pair of operands.

use vstd::prelude::*;
use vstd::std_specs::ops::{AddSpec, MulSpec, SubSpec};

verus! {

/// Every `+` on `T` is permitted, whatever the operands.
pub open spec fn add_total<T: core::ops::Add<Output = T>>() -> bool {
    forall|x: T, y: T| #[trigger] x.add_req(y)
}

/// Every `-` on `T` is permitted, whatever the operands.
pub open spec fn sub_total<T: core::ops::Sub<Output = T>>() -> bool {
    forall|x: T, y: T| #[trigger] x.sub_req(y)
}

/// Every `*` on `T` is permitted, whatever the operands.
pub open spec fn mul_total<T: core::ops::Mul<Output = T>>() -> bool {
    forall|x: T, y: T| #[trigger] x.mul_req(y)
}

/// `z` is a value that `T::default()` may return. For the integer types vstd
/// states the one value, zero; for other types it states nothing.
pub open spec fn is_default<T: Default>(z: T) -> bool {
    call_ensures(T::default, (), z)
}

} // verus!
