use vstd::prelude::*;
use vstd::std_specs::cmp::PartialEqSpec;

verus! {

/// Adds `PAD` explicit padding bytes to the end of a value, so that a type can be made free of
/// implicit padding.
#[derive(Copy, Clone)]
pub struct TransparentPad<T, const PAD: usize>(pub T, [u8; PAD]);

impl<T, const PAD: usize> TransparentPad<T, PAD> {
    /// Stores the value alongside `PAD` zero bytes.
    pub fn new(inner: T) -> (r: Self)
        ensures
            r.inner() == inner,
            r.padding() == Seq::new(PAD as nat, |i: int| 0u8),
    {
        let r = TransparentPad(inner, [0u8; PAD]);
        assert(r.1@ =~= Seq::new(PAD as nat, |i: int| 0u8));
        r
    }

    /// The wrapped value: the public field `.0`.
    pub closed spec fn inner(&self) -> T {
        self.0
    }

    /// The padding bytes.
    pub closed spec fn padding(&self) -> Seq<u8> {
        self.1@
    }

    /// The stored value.
    pub fn as_ref(&self) -> (r: &T)
        ensures
            *r == self.inner(),
    {
        &self.0
    }

    /// Mutable access to the stored value; the padding stays as it is.
    pub fn as_mut(&mut self) -> (r: &mut T)
        ensures
            *r == old(self).inner(),
            final(self).inner() == *final(r),
            final(self).padding() == old(self).padding(),
    {
        &mut self.0
    }
}

impl<T, const PAD: usize> core::ops::Deref for TransparentPad<T, PAD> {
    type Target = T;

    /// The stored value.
    fn deref(&self) -> (r: &T)
        ensures
            *r == self.inner(),
    {
        &self.0
    }
}

impl<T: PartialEq, const PAD: usize> PartialEq for TransparentPad<T, PAD> {
    /// Two padded values are equal when their stored values are; the padding does not count.
    fn eq(&self, other: &Self) -> (r: bool) {
        self.0 == other.0
    }
}

impl<T: PartialEq, const PAD: usize> vstd::std_specs::cmp::PartialEqSpecImpl for TransparentPad<T, PAD> {
    open spec fn obeys_eq_spec() -> bool {
        T::obeys_eq_spec()
    }

    open spec fn eq_spec(&self, other: &Self) -> bool {
        self.inner().eq_spec(&other.inner())
    }
}

} // verus!
