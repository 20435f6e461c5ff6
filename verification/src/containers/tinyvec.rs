use vstd::prelude::*;

verus! {

/// A vector with a fixed capacity `N` (and never more than 255 elements,
/// the length being kept in a byte).
#[derive(Debug)]
pub struct TinyVec<T: Clone, const N: usize> {
    array: Vec<T>,
}

impl<T: Clone, const N: usize> View for TinyVec<T, N> {
    type V = Seq<T>;

    closed spec fn view(&self) -> Seq<T> {
        self.array@
    }
}

impl<T: Clone, const N: usize> TinyVec<T, N> {
    #[verifier::type_invariant]
    closed spec fn well_formed(self) -> bool {
        &&& self.array@.len() <= N
        &&& self.array@.len() <= 255
    }

    /// Creates an empty vector.
    pub fn new() -> (v: Self)
        ensures
            v@ == Seq::<T>::empty(),
    {
        TinyVec { array: Vec::new() }
    }

    /// Appends `n`. Pushing onto a full vector (length `N`), or past 255
    /// elements, is not allowed.
    pub fn push(&mut self, n: T)
        requires
            old(self)@.len() < N,
            old(self)@.len() < 255,
        ensures
            final(self)@ == old(self)@.push(n),
    {
        proof {
            use_type_invariant(&*self);
        }
        let mut items = Vec::new();
        std::mem::swap(&mut items, &mut self.array);
        items.push(n);
        self.array = items;
    }

    /// Removes and returns the last element, or `None` when empty.
    pub fn pop(&mut self) -> (r: Option<T>)
        ensures
            old(self)@.len() == 0 ==> r is None && final(self)@ == old(self)@,
            old(self)@.len() > 0 ==> r == Some(old(self)@.last()) && final(self)@
                == old(self)@.drop_last(),
    {
        proof {
            use_type_invariant(&*self);
        }
        let mut items = Vec::new();
        std::mem::swap(&mut items, &mut self.array);
        let r = items.pop();
        self.array = items;
        r
    }

    /// The number of elements.
    pub fn len(&self) -> (n: usize)
        ensures
            n == self@.len(),
            n <= N,
    {
        proof {
            use_type_invariant(self);
        }
        self.array.len()
    }

    /// Overwrites the element at `index`.
    pub fn set(&mut self, index: usize, value: T)
        requires
            index < old(self)@.len(),
        ensures
            final(self)@ == old(self)@.update(index as int, value),
    {
        proof {
            use_type_invariant(&*self);
        }
        let mut items = Vec::new();
        std::mem::swap(&mut items, &mut self.array);
        items.set(index, value);
        self.array = items;
    }
}

impl<T: Clone, const N: usize> std::ops::Index<usize> for TinyVec<T, N> {
    type Output = T;

    fn index(&self, index: usize) -> (r: &T)
        ensures
            *r == self@[index as int],
    {
        proof {
            use_type_invariant(self);
        }
        &self.array[index]
    }
}

impl<T: Clone, const N: usize> vstd::std_specs::core::IndexSpecImpl<usize> for TinyVec<T, N> {
    open spec fn index_req(&self, index: &usize) -> bool {
        *index < self@.len()
    }
}

} // verus!

verus! {

/// Popping right after a push gives back the pushed element and leaves the
/// vector as it was before the push.
pub proof fn lemma_pop_undoes_push<T>(before: Seq<T>, x: T)
    ensures
        before.push(x).len() > 0,
        before.push(x).last() == x,
        before.push(x).drop_last() == before,
{
    assert(before.push(x).drop_last() =~= before);
}

} // verus!
