//! Dense vectors and their element-wise arithmetic.

use vstd::prelude::*;
use vstd::std_specs::ops::{AddSpec, MulSpec, SubSpec};

use crate::arith::{add_total, mul_total};

verus! {

/// A vector: `size` is the length the operations use, `data` the elements.
#[derive(Debug, Clone)]
pub struct Vector<T> {
    pub data: Vec<T>,
    pub size: usize,
}

/// Read access to a vector.
pub trait VectorRead<T>: Sized {
    /// The length that `size()` reports.
    spec fn len_spec(&self) -> nat;

    /// The stored elements.
    spec fn elems(&self) -> Seq<T>;

    fn size(&self) -> (n: usize)
        ensures
            n == self.len_spec(),
    ;

    /// The element at `index`; defined below the reported length, where an
    /// element is stored.
    fn get(&self, index: usize) -> (v: &T)
        requires
            index < self.len_spec(),
            index < self.elems().len(),
        ensures
            *v == self.elems()[index as int],
    ;
}

/// Write access to a vector.
pub trait VectorWrite<T>: VectorRead<T> {
    /// The element at `index`, to be written in place.
    fn get_mut(&mut self, index: usize) -> (v: &mut T)
        requires
            index < old(self).len_spec(),
            index < old(self).elems().len(),
        ensures
            *v == old(self).elems()[index as int],
            final(self).elems() == old(self).elems().update(index as int, *final(v)),
            final(self).len_spec() == old(self).len_spec(),
    ;

    /// Adds `value` to the element at `index`.
    fn accumulate(&mut self, index: usize, value: T) where T: Copy + core::ops::Add<Output = T>
        requires
            index < old(self).len_spec(),
            index < old(self).elems().len(),
            old(self).elems()[index as int].add_req(value),
        ensures
            final(self).elems() == old(self).elems().update(
                index as int,
                final(self).elems()[index as int],
            ),
            T::obeys_add_spec() ==> final(self).elems()[index as int] == old(
                self,
            ).elems()[index as int].add_spec(value),
            final(self).len_spec() == old(self).len_spec(),
    {
        let elem = self.get_mut(index);
        *elem = *elem + value;
    }
}

impl<T> VectorRead<T> for Vector<T> {
    open spec fn len_spec(&self) -> nat {
        self.size as nat
    }

    open spec fn elems(&self) -> Seq<T> {
        self.data@
    }

    fn size(&self) -> (n: usize) {
        self.size
    }

    fn get(&self, index: usize) -> (v: &T) {
        &self.data[index]
    }
}

impl<T> VectorWrite<T> for Vector<T> {
    fn get_mut(&mut self, index: usize) -> (v: &mut T) {
        &mut self.data[index]
    }
}

/// The dot product of the first `n` elements, summed from the front:
/// `((a0 * b0) + a1 * b1) + ...`.
pub open spec fn dot_prefix<T: core::ops::Add<Output = T> + core::ops::Mul<Output = T>>(
    a: Seq<T>,
    b: Seq<T>,
    n: int,
) -> T
    decreases n,
{
    if n <= 1 {
        a[0].mul_spec(b[0])
    } else {
        dot_prefix(a, b, n - 1).add_spec(a[n - 1].mul_spec(b[n - 1]))
    }
}

/// Every operation of the dot product of the first `n` elements is permitted.
pub open spec fn dot_allowed<T: core::ops::Add<Output = T> + core::ops::Mul<Output = T>>(
    a: Seq<T>,
    b: Seq<T>,
    n: int,
) -> bool {
    if T::obeys_add_spec() && T::obeys_mul_spec() {
        &&& a[0].mul_req(b[0])
        &&& forall|k: int|
            1 <= k < n ==> #[trigger] a[k].mul_req(b[k]) && dot_prefix(a, b, k).add_req(
                a[k].mul_spec(b[k]),
            )
    } else {
        add_total::<T>() && mul_total::<T>()
    }
}

impl<T> Vector<T> {
    /// An empty vector that reports length `size`, with room for `size` elements.
    pub fn new(size: usize) -> (v: Self)
        ensures
            v.size == size,
            v.data@ == Seq::<T>::empty(),
    {
        let data = Vec::with_capacity(size);
        Vector { data, size }
    }

    /// The dot product, summed from the first element on.
    pub fn dot(&self, other: &Vector<T>) -> (r: T) where
        T: core::ops::Mul<Output = T> + core::ops::Add<Output = T> + Copy,

        requires
            self.size == other.size,
            1 <= self.size,
            self.size <= self.data@.len(),
            self.size <= other.data@.len(),
            dot_allowed(self.data@, other.data@, self.size as int),
        ensures
            T::obeys_add_spec() && T::obeys_mul_spec() ==> r == dot_prefix(
                self.data@,
                other.data@,
                self.size as int,
            ),
    {
        let n = self.size();
        let mut result = self.data[0] * other.data[0];
        let mut i: usize = 1;
        while i < n
            invariant
                n == self.size,
                1 <= i <= n,
                n <= self.data@.len(),
                n <= other.data@.len(),
                dot_allowed(self.data@, other.data@, n as int),
                T::obeys_add_spec() && T::obeys_mul_spec() ==> result == dot_prefix(
                    self.data@,
                    other.data@,
                    i as int,
                ),
            decreases n - i,
        {
            proof {
                if !(T::obeys_add_spec() && T::obeys_mul_spec()) {
                    assert(self.data@[i as int].mul_req(other.data@[i as int]));
                }
            }
            let p = self.data[i] * other.data[i];
            proof {
                if !(T::obeys_add_spec() && T::obeys_mul_spec()) {
                    assert(result.add_req(p));
                }
            }
            result = result + p;
            i = i + 1;
        }
        result
    }
}

// --------------- Arithmetic Operations ----------------

/// Replaces the elements of `out` by the element-wise sum `lhs + rhs`.
pub fn add_vectors_core<T>(lhs: &Vector<T>, rhs: &Vector<T>, out: &mut Vector<T>) where
    T: core::ops::Add<Output = T> + Copy,

    requires
        lhs.size == rhs.size,
        lhs.size == old(out).size,
        lhs.size <= lhs.data@.len(),
        lhs.size <= rhs.data@.len(),
        forall|k: int| 0 <= k < lhs.size ==> #[trigger] lhs.data@[k].add_req(rhs.data@[k]),
    ensures
        final(out).size == old(out).size,
        final(out).data@.len() == lhs.size,
        T::obeys_add_spec() ==> forall|k: int|
            0 <= k < lhs.size ==> #[trigger] final(out).data@[k] == lhs.data@[k].add_spec(
                rhs.data@[k],
            ),
{
    let n = lhs.size();
    out.data.clear();
    out.data.reserve(n);
    let mut i: usize = 0;
    while i < n
        invariant
            n == lhs.size,
            i <= n,
            n <= lhs.data@.len(),
            n <= rhs.data@.len(),
            out.size == old(out).size,
            out.data@.len() == i,
            forall|k: int| 0 <= k < n ==> #[trigger] lhs.data@[k].add_req(rhs.data@[k]),
            T::obeys_add_spec() ==> forall|k: int|
                0 <= k < i ==> #[trigger] out.data@[k] == lhs.data@[k].add_spec(rhs.data@[k]),
        decreases n - i,
    {
        let x = lhs.data[i] + rhs.data[i];
        out.data.push(x);
        i = i + 1;
    }
}

/// Replaces the elements of `out` by the element-wise difference `lhs - rhs`.
pub fn sub_vectors_core<T>(lhs: &Vector<T>, rhs: &Vector<T>, out: &mut Vector<T>) where
    T: core::ops::Sub<Output = T> + Copy,

    requires
        lhs.size == rhs.size,
        lhs.size == old(out).size,
        lhs.size <= lhs.data@.len(),
        lhs.size <= rhs.data@.len(),
        forall|k: int| 0 <= k < lhs.size ==> #[trigger] lhs.data@[k].sub_req(rhs.data@[k]),
    ensures
        final(out).size == old(out).size,
        final(out).data@.len() == lhs.size,
        T::obeys_sub_spec() ==> forall|k: int|
            0 <= k < lhs.size ==> #[trigger] final(out).data@[k] == lhs.data@[k].sub_spec(
                rhs.data@[k],
            ),
{
    let n = lhs.size();
    out.data.clear();
    out.data.reserve(n);
    let mut i: usize = 0;
    while i < n
        invariant
            n == lhs.size,
            i <= n,
            n <= lhs.data@.len(),
            n <= rhs.data@.len(),
            out.size == old(out).size,
            out.data@.len() == i,
            forall|k: int| 0 <= k < n ==> #[trigger] lhs.data@[k].sub_req(rhs.data@[k]),
            T::obeys_sub_spec() ==> forall|k: int|
                0 <= k < i ==> #[trigger] out.data@[k] == lhs.data@[k].sub_spec(rhs.data@[k]),
        decreases n - i,
    {
        let x = lhs.data[i] - rhs.data[i];
        out.data.push(x);
        i = i + 1;
    }
}

/// Replaces the elements of `out` by `vector * scalar`, element by element;
/// `out.size` is left as it was.
pub fn scalar_mul_vectors_core<T>(vector: &Vector<T>, scalar: T, out: &mut Vector<T>) where
    T: core::ops::Mul<Output = T> + Copy,

    requires
        vector.size <= vector.data@.len(),
        forall|k: int| 0 <= k < vector.size ==> #[trigger] vector.data@[k].mul_req(scalar),
    ensures
        final(out).size == old(out).size,
        final(out).data@.len() == vector.size,
        T::obeys_mul_spec() ==> forall|k: int|
            0 <= k < vector.size ==> #[trigger] final(out).data@[k] == vector.data@[k].mul_spec(
                scalar,
            ),
{
    let n = vector.size();
    out.data.clear();
    out.data.reserve(n);
    let mut i: usize = 0;
    while i < n
        invariant
            n == vector.size,
            i <= n,
            n <= vector.data@.len(),
            out.size == old(out).size,
            out.data@.len() == i,
            forall|k: int| 0 <= k < n ==> #[trigger] vector.data@[k].mul_req(scalar),
            T::obeys_mul_spec() ==> forall|k: int|
                0 <= k < i ==> #[trigger] out.data@[k] == vector.data@[k].mul_spec(scalar),
        decreases n - i,
    {
        let x = vector.data[i] * scalar;
        out.data.push(x);
        i = i + 1;
    }
}

impl<'a, 'b, T> core::ops::Add<&'b Vector<T>> for &'a Vector<T> where
    T: core::ops::Add<Output = T> + Copy,
 {
    type Output = Vector<T>;

    fn add(self, rhs: &'b Vector<T>) -> (result: Vector<T>)
        ensures
            result.size == self.size,
            result.data@.len() == self.size,
            T::obeys_add_spec() ==> forall|k: int|
                0 <= k < self.size ==> #[trigger] result.data@[k] == self.data@[k].add_spec(
                    rhs.data@[k],
                ),
    {
        let mut result = Vector::new(self.size());
        add_vectors_core(self, rhs, &mut result);
        result
    }
}

impl<'a, 'b, T> vstd::std_specs::ops::AddSpecImpl<&'b Vector<T>> for &'a Vector<T> where
    T: core::ops::Add<Output = T> + Copy,
 {
    open spec fn obeys_add_spec() -> bool {
        false
    }

    open spec fn add_req(self, rhs: &'b Vector<T>) -> bool {
        &&& self.size == rhs.size
        &&& self.size <= self.data@.len()
        &&& self.size <= rhs.data@.len()
        &&& forall|k: int| 0 <= k < self.size ==> #[trigger] self.data@[k].add_req(rhs.data@[k])
    }

    open spec fn add_spec(self, rhs: &'b Vector<T>) -> Vector<T> {
        choose|v: Vector<T>|
            v.size == self.size && v.data@.len() == self.size && forall|k: int|
                0 <= k < self.size ==> #[trigger] v.data@[k] == self.data@[k].add_spec(rhs.data@[k])
    }
}

impl<'a, 'b, T> core::ops::Sub<&'b Vector<T>> for &'a Vector<T> where
    T: core::ops::Sub<Output = T> + Copy,
 {
    type Output = Vector<T>;

    fn sub(self, rhs: &'b Vector<T>) -> (result: Vector<T>)
        ensures
            result.size == self.size,
            result.data@.len() == self.size,
            T::obeys_sub_spec() ==> forall|k: int|
                0 <= k < self.size ==> #[trigger] result.data@[k] == self.data@[k].sub_spec(
                    rhs.data@[k],
                ),
    {
        let mut result = Vector::new(self.size());
        sub_vectors_core(self, rhs, &mut result);
        result
    }
}

impl<'a, 'b, T> vstd::std_specs::ops::SubSpecImpl<&'b Vector<T>> for &'a Vector<T> where
    T: core::ops::Sub<Output = T> + Copy,
 {
    open spec fn obeys_sub_spec() -> bool {
        false
    }

    open spec fn sub_req(self, rhs: &'b Vector<T>) -> bool {
        &&& self.size == rhs.size
        &&& self.size <= self.data@.len()
        &&& self.size <= rhs.data@.len()
        &&& forall|k: int| 0 <= k < self.size ==> #[trigger] self.data@[k].sub_req(rhs.data@[k])
    }

    open spec fn sub_spec(self, rhs: &'b Vector<T>) -> Vector<T> {
        choose|v: Vector<T>|
            v.size == self.size && v.data@.len() == self.size && forall|k: int|
                0 <= k < self.size ==> #[trigger] v.data@[k] == self.data@[k].sub_spec(rhs.data@[k])
    }
}

impl<'a, T> core::ops::Mul<T> for &'a Vector<T> where T: core::ops::Mul<Output = T> + Copy {
    type Output = Vector<T>;

    fn mul(self, scalar: T) -> (result: Vector<T>)
        ensures
            result.size == self.size,
            result.data@.len() == self.size,
            T::obeys_mul_spec() ==> forall|k: int|
                0 <= k < self.size ==> #[trigger] result.data@[k] == self.data@[k].mul_spec(scalar),
    {
        let mut result = Vector::new(self.size());
        scalar_mul_vectors_core(self, scalar, &mut result);
        result
    }
}

impl<'a, T> vstd::std_specs::ops::MulSpecImpl<T> for &'a Vector<T> where T: core::ops::Mul<Output = T> + Copy {
    open spec fn obeys_mul_spec() -> bool {
        false
    }

    open spec fn mul_req(self, scalar: T) -> bool {
        &&& self.size <= self.data@.len()
        &&& forall|k: int| 0 <= k < self.size ==> #[trigger] self.data@[k].mul_req(scalar)
    }

    open spec fn mul_spec(self, scalar: T) -> Vector<T> {
        choose|v: Vector<T>|
            v.size == self.size && v.data@.len() == self.size && forall|k: int|
                0 <= k < self.size ==> #[trigger] v.data@[k] == self.data@[k].mul_spec(scalar)
    }
}

/// Reading a vector addresses its `data`: element `i` is `data[i]`, and
/// its reported length is `size`.
pub proof fn lemma_vector_addressing<T>(v: &Vector<T>)
    ensures
        v.elems() == v.data@,
        v.len_spec() == v.size,
{
}

} // verus!
