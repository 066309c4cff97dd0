use vstd::prelude::*;

verus! {

/// A fixed-capacity, stack-backed array.
///
/// `BoundedArray` never allocates. The backing array is initialized when the
/// value is created; `len` marks the initialized prefix that is exposed by
/// [`BoundedArray::as_slice`]. Its contents are the view `self@`, a sequence
/// that never holds more than `CAPACITY` elements.
#[derive(Debug, PartialEq, Eq)]
pub struct BoundedArray<T: Copy, const CAPACITY: usize> {
    values: [T; CAPACITY],
    len: usize,
}

impl<T: Copy, const CAPACITY: usize> Clone for BoundedArray<T, CAPACITY> {
    /// Copies the backing array and the length.
    fn clone(&self) -> (r: Self)
        ensures
            r == *self,
    {
        proof {
            use_type_invariant(self);
        }
        Self { values: self.values, len: self.len }
    }
}

impl<T: Copy, const CAPACITY: usize> View for BoundedArray<T, CAPACITY> {
    type V = Seq<T>;

    closed spec fn view(&self) -> Seq<T> {
        self.values@.subrange(0, self.len as int)
    }
}

impl<T: Copy, const CAPACITY: usize> BoundedArray<T, CAPACITY> {
    /// Every slot of the backing array, the stored prefix and the spare
    /// slots after it.
    pub closed spec fn slots(&self) -> Seq<T> {
        self.values@
    }


    #[verifier::type_invariant]
    spec fn within_capacity(self) -> bool {
        self.len <= CAPACITY
    }

    /// Creates an empty array whose unused slots contain `fill`.
    pub fn new(fill: T) -> (r: Self)
        ensures
            r@ == Seq::<T>::empty(),
            r.slots() == Seq::new(CAPACITY as nat, |i: int| fill),
    {
        let r = Self { values: [fill; CAPACITY], len: 0 };
        assert(r@ =~= Seq::<T>::empty());
        assert(r.slots() =~= Seq::new(CAPACITY as nat, |i: int| fill));
        r
    }

    /// Creates a full bounded array from an ordinary fixed-size array.
    pub fn from_array(values: [T; CAPACITY]) -> (r: Self)
        ensures
            r@ == values@,
            r@.len() == CAPACITY,
            r.slots() == values@,
    {
        let r = Self { values, len: CAPACITY };
        assert(r@ =~= values@);
        r
    }

    /// Number of elements currently stored.
    pub fn len(&self) -> (r: usize)
        ensures
            r == self@.len(),
            r <= CAPACITY,
    {
        proof {
            use_type_invariant(self);
        }
        self.len
    }

    /// Maximum number of elements this array can store.
    pub fn capacity(&self) -> (r: usize)
        ensures
            r == CAPACITY,
    {
        CAPACITY
    }

    /// Whether the array contains no elements.
    pub fn is_empty(&self) -> (r: bool)
        ensures
            r == (self@.len() == 0),
    {
        proof {
            use_type_invariant(self);
        }
        self.len == 0
    }

    /// Whether no further elements can be appended.
    pub fn is_full(&self) -> (r: bool)
        ensures
            r == (self@.len() == CAPACITY),
    {
        proof {
            use_type_invariant(self);
        }
        self.len == CAPACITY
    }

    /// Returns the stored prefix as a slice.
    pub fn as_slice(&self) -> (r: &[T])
        ensures
            r@ == self@,
    {
        proof {
            use_type_invariant(self);
        }
        vstd::slice::slice_subrange(self.values.as_slice(), 0, self.len)
    }

    /// Returns an element if `index` is in the stored prefix.
    pub fn get(&self, index: usize) -> (r: Option<T>)
        ensures
            r == (if index < self@.len() {
                Some(self@[index as int])
            } else {
                None
            }),
    {
        proof {
            use_type_invariant(self);
        }
        if index < self.len {
            Some(self.values[index])
        } else {
            None
        }
    }

    /// Appends an element, returning it unchanged if the array is full.
    pub fn push(&mut self, value: T) -> (r: Result<(), T>)
        ensures
            final(self)@.len() <= CAPACITY,
            old(self)@.len() < CAPACITY ==> {
                &&& r == Ok::<(), T>(())
                &&& final(self)@ == old(self)@.push(value)
                &&& final(self).slots() == old(self).slots().update(old(self)@.len() as int, value)
            },
            old(self)@.len() >= CAPACITY ==> r == Err::<(), T>(value) && *final(self) == *old(
                self,
            ),
    {
        proof {
            use_type_invariant(&*self);
        }
        if self.is_full() {
            return Err(value);
        }
        let ghost before = self@;
        let i = self.len;
        self.values[i] = value;
        self.len = i + 1;
        assert(self@ =~= before.push(value));
        Ok(())
    }
}

} // verus!
