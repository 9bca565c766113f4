//! Fixed-capacity sensor buffers that are filled front to back.
//!
//! A `ZeroCopyBuffer<T>` has a capacity fixed at creation and an initialized
//! prefix that grows as elements are written; only the initialized prefix can
//! be read.

use vstd::prelude::*;
use vstd::std_specs::iter::IteratorSpec;
use vstd::std_specs::slice::into_iter_elts;
use crate::wasm::shape_size;

verus! {

/// Error types that can occur during buffer operations.
#[derive(Debug)]
pub enum BufferError {
    /// Buffer is too small for the requested operation.
    BufferTooSmall { needed: usize, have: usize },
    /// Attempted to read uninitialized memory.
    UninitializedRead,
    /// Invalid alignment for the buffer operation.
    InvalidAlignment { expected: usize, actual: usize },
}

/// A buffer of fixed capacity whose elements are initialized front to back.
pub struct ZeroCopyBuffer<T> {
    data: Vec<T>,
    total_len: usize,
}

/// Moves the elements of a vector into a boxed slice.
///
/// Calls std's `Vec::into_boxed_slice`; the contract claims the elements are
/// kept in order.
#[verifier::external_body]
fn vec_into_boxed_slice<T>(v: Vec<T>) -> (b: Box<[T]>)
    ensures
        b@ == v@,
{
    v.into_boxed_slice()
}

impl<T> ZeroCopyBuffer<T> {

    /// The initialized elements, in order.
    pub closed spec fn initialized(&self) -> Seq<T> {
        self.data@
    }

    /// The number of elements the buffer can hold.
    pub closed spec fn capacity(&self) -> nat {
        self.total_len as nat
    }

    /// The initialized prefix fits within the capacity. Every buffer built
    /// and filled through this type's methods has it; a mutable slice handed
    /// out cannot change the number of elements either.
    pub open spec fn wf(&self) -> bool {
        self.initialized().len() <= self.capacity()
    }

    /// The number of elements that can still be initialized.
    pub open spec fn room(&self) -> nat {
        if self.initialized().len() <= self.capacity() {
            (self.capacity() - self.initialized().len()) as nat
        } else {
            0
        }
    }

    /// Create a new zero-copy buffer with the given total capacity.
    ///
    /// All memory is initially uninitialized.
    pub fn new(total_len: usize) -> (b: Self)
        ensures
            b.wf(),
            b.initialized() == Seq::<T>::empty(),
            b.capacity() == total_len,
    {
        ZeroCopyBuffer { data: Vec::with_capacity(total_len), total_len }
    }

    /// Create a buffer from an existing initialized `Vec<T>`.
    ///
    /// This takes ownership of the vector and marks all elements as initialized.
    pub fn from_vec(vec: Vec<T>) -> (b: Self)
        ensures
            b.wf(),
            b.initialized() == vec@,
            b.capacity() == vec@.len(),
    {
        let total_len = vec.len();
        ZeroCopyBuffer { data: vec, total_len }
    }

    /// Get the total capacity of the buffer.
    pub fn total_len(&self) -> (n: usize)
        ensures
            n == self.capacity(),
    {
        self.total_len
    }

    /// Get the number of initialized elements.
    pub fn initialized_len(&self) -> (n: usize)
        ensures
            n == self.initialized().len(),
    {
        self.data.len()
    }

    /// Get the number of uninitialized elements available.
    pub fn uninitialized_len(&self) -> (n: usize)
        ensures
            n == self.room(),
    {
        let len = self.data.len();
        if len <= self.total_len {
            self.total_len - len
        } else {
            0
        }
    }

    /// Initialize the next uninitialized element with the given value.
    ///
    /// Returns `Ok(())` if initialization succeeded, or `Err(value)` if
    /// the buffer was already full.
    pub fn push(&mut self, value: T) -> (res: Result<(), T>)
        ensures
            old(self).wf() ==> final(self).wf(),
            final(self).capacity() == old(self).capacity(),
            old(self).initialized().len() < old(self).capacity() ==> res is Ok
                && final(self).initialized() == old(self).initialized().push(value),
            old(self).initialized().len() >= old(self).capacity() ==> res == Err::<(), T>(value)
                && final(self).initialized() == old(self).initialized(),
    {
        if self.data.len() >= self.total_len {
            return Err(value);
        }
        self.data.push(value);
        Ok(())
    }

    /// Initialize a range of elements with the given slice.
    ///
    /// Fails with `BufferTooSmall` if fewer elements are uninitialized than
    /// `values` holds; the buffer is then unchanged.
    pub fn extend_from_slice(&mut self, values: &[T]) -> (res: Result<(), BufferError>) where
        T: Copy,
        ensures
            old(self).wf() ==> final(self).wf(),
            final(self).capacity() == old(self).capacity(),
            values@.len() <= old(self).room() ==> res is Ok && final(self).initialized() == old(
                self,
            ).initialized() + values@,
            values@.len() > old(self).room() ==> res == Err::<(), BufferError>(
                BufferError::BufferTooSmall {
                    needed: values@.len() as usize,
                    have: old(self).room() as usize,
                },
            ) && final(self).initialized() == old(self).initialized(),
    {
        let needed = values.len();
        let have = self.uninitialized_len();
        if have < needed {
            return Err(BufferError::BufferTooSmall { needed, have });
        }
        let ghost before = self.data@;
        let mut i: usize = 0;
        while i < needed
            invariant
                needed == values@.len(),
                i <= needed,
                self.data@ == before + values@.subrange(0, i as int),
                needed == 0 || before.len() + needed <= self.total_len,
                self.total_len == old(self).total_len,
            decreases needed - i,
        {
            self.data.push(values[i]);
            i += 1;
            assert(self.data@ == before + values@.subrange(0, i as int));
        }
        assert(values@.subrange(0, needed as int) == values@);
        Ok(())
    }

    /// Get a borrowed slice of the initialized portion of the buffer.
    pub fn initialized_slice(&self) -> (s: &[T])
        ensures
            s@ == self.initialized(),
    {
        self.data.as_slice()
    }

    /// Get a mutable slice of the initialized portion of the buffer; what is
    /// written through it becomes the initialized elements.
    pub fn initialized_slice_mut(&mut self) -> (s: &mut [T])
        ensures
            s@ == old(self).initialized(),
            final(self).initialized() == final(s)@,
            final(self).capacity() == old(self).capacity(),
    {
        self.data.as_mut_slice()
    }

    /// Get a mutable slice of the whole buffer: elements not yet initialized
    /// are first set to `fill`, so every element of the slice is initialized,
    /// and what is written through it becomes the buffer's elements.
    pub fn as_mut_slice(&mut self, fill: T) -> (s: &mut [T]) where T: Copy
        ensures
            s@ == old(self).initialized() + Seq::new(
                (if old(self).initialized().len() < old(self).capacity() {
                    old(self).capacity() - old(self).initialized().len()
                } else {
                    0
                }) as nat,
                |i: int| fill,
            ),
            final(self).initialized() == final(s)@,
            final(self).capacity() == old(self).capacity(),
    {
        let ghost before = self.data@;
        while self.data.len() < self.total_len
            invariant
                self.total_len == old(self).total_len,
                before == old(self).data@,
                before.len() <= self.data@.len(),
                self.data@.len() <= self.total_len || self.data@ == before,
                self.data@ == before + Seq::new((self.data@.len() - before.len()) as nat, |i: int| fill),
            decreases self.total_len - self.data@.len(),
        {
            self.data.push(fill);
            assert(self.data@ =~= before + Seq::new((self.data@.len() - before.len()) as nat, |i: int| fill));
        }
        assert(self.data@ =~= before + Seq::new(
            (if before.len() < self.total_len {
                self.total_len - before.len()
            } else {
                0
            }) as nat,
            |i: int| fill,
        ));
        self.data.as_mut_slice()
    }

    /// Consume the buffer and return the fully initialized `Box<[T]>`.
    pub fn into_boxed_slice(self) -> (b: Box<[T]>)
        requires
            self.initialized().len() == self.capacity(),
        ensures
            b@ == self.initialized(),
    {
        vec_into_boxed_slice(self.data)
    }

    /// Consume the buffer and return its initialized elements.
    pub fn into_inner(self) -> (v: Vec<T>)
        ensures
            v@ == self.initialized(),
    {
        self.data
    }

    /// Clear the buffer, marking all elements as uninitialized.
    pub fn clear(&mut self)
        ensures
            final(self).wf(),
            final(self).initialized() == Seq::<T>::empty(),
            final(self).capacity() == old(self).capacity(),
    {
        self.data.clear();
    }
}

/// A borrowed view of initialized elements.
pub struct BorrowedBuffer<'a, T> {
    slice: &'a [T],
}

impl<'a, T> View for BorrowedBuffer<'a, T> {
    type V = Seq<T>;

    closed spec fn view(&self) -> Seq<T> {
        self.slice@
    }
}

impl<'a, T> BorrowedBuffer<'a, T> {
    /// Create a new borrowed buffer from a slice.
    pub fn new(slice: &'a [T]) -> (b: Self)
        ensures
            b@ == slice@,
    {
        BorrowedBuffer { slice }
    }

    /// Get the length of the buffer.
    pub fn len(&self) -> (n: usize)
        ensures
            n == self@.len(),
    {
        self.slice.len()
    }

    /// Check if the buffer is empty.
    pub fn is_empty(&self) -> (b: bool)
        ensures
            b == (self@.len() == 0),
    {
        self.slice.len() == 0
    }

    /// Get a reference to the underlying slice.
    pub fn as_slice(&self) -> (s: &'a [T])
        ensures
            s@ == self@,
    {
        self.slice
    }

    /// Whether an array of the given shape holds exactly the buffer's elements.
    pub fn fits_shape(&self, shape: &[usize]) -> (b: bool)
        ensures
            b == (shape_size(shape@) == self@.len()),
    {
        let len = self.slice.len();
        match shape_len(shape) {
            Some(n) => n == len,
            None => false,
        }
    }

    /// Get an iterator over the buffer elements.
    pub fn iter(&self) -> (it: std::slice::Iter<'a, T>)
        ensures
            into_iter_elts(it) == self@,
    {
        proof {
            broadcast use vstd::std_specs::slice::axiom_spec_slice_iter;
        }
        let it = self.slice.iter();
        proof {
            assert(IteratorSpec::remaining(&it).unref() == self.slice@);
        }
        it
    }
}

proof fn lemma_shape_zero(s: Seq<usize>, j: int)
    requires
        0 <= j < s.len(),
        s[j] == 0,
    ensures
        shape_size(s) == 0,
    decreases s.len(),
{
    let a = shape_size(s.drop_last());
    let d = s.last() as nat;
    if j < s.len() - 1 {
        lemma_shape_zero(s.drop_last(), j);
        assert(a * d == 0) by (nonlinear_arith)
            requires
                a == 0,
        ;
    } else {
        assert(a * d == 0) by (nonlinear_arith)
            requires
                d == 0,
        ;
    }
}

proof fn lemma_shape_grows(s: Seq<usize>, i: int)
    requires
        0 <= i <= s.len(),
        forall|j: int| 0 <= j < s.len() ==> 1 <= #[trigger] s[j],
    ensures
        shape_size(s.take(i)) <= shape_size(s),
    decreases s.len() - i,
{
    if i < s.len() {
        lemma_shape_grows(s, i + 1);
        assert(s.take(i + 1).drop_last() =~= s.take(i));
        let a = shape_size(s.take(i));
        let d = s[i] as nat;
        assert(a <= a * d) by (nonlinear_arith)
            requires
                1 <= d,
        ;
    } else {
        assert(s.take(i) =~= s);
    }
}

/// The number of elements an array of the given shape holds, if it fits in
/// a `usize`.
pub fn shape_len(shape: &[usize]) -> (n: Option<usize>)
    ensures
        match n {
            Some(k) => k == shape_size(shape@),
            None => shape_size(shape@) > usize::MAX,
        },
{
    let len = shape.len();
    let mut j: usize = 0;
    while j < len
        invariant
            len == shape@.len(),
            j <= len,
            forall|k: int| 0 <= k < j ==> 1 <= #[trigger] shape@[k],
        decreases len - j,
    {
        if shape[j] == 0 {
            proof {
                lemma_shape_zero(shape@, j as int);
            }
            return Some(0);
        }
        j += 1;
    }
    let mut acc: usize = 1;
    let mut i: usize = 0;
    while i < len
        invariant
            len == shape@.len(),
            i <= len,
            forall|k: int| 0 <= k < len ==> 1 <= #[trigger] shape@[k],
            acc == shape_size(shape@.take(i as int)),
        decreases len - i,
    {
        assert(shape@.take(i + 1).drop_last() =~= shape@.take(i as int));
        match acc.checked_mul(shape[i]) {
            Some(m) => {
                acc = m;
            },
            None => {
                proof {
                    lemma_shape_grows(shape@, i + 1);
                }
                return None;
            },
        }
        i += 1;
    }
    assert(shape@.take(len as int) =~= shape@);
    Some(acc)
}

} // verus!
