use vstd::prelude::*;

verus! {

/// A vector of at most `N` items.
#[derive(Debug)]
pub struct SmallVec<T, const N: usize> {
    data: Vec<T>,
}

impl<T, const N: usize> View for SmallVec<T, N> {
    type V = Seq<T>;

    closed spec fn view(&self) -> Seq<T> {
        self.data@
    }
}

impl<T, const N: usize> SmallVec<T, N> {
    /// The vector holds at most `N` items.
    pub open spec fn wf(&self) -> bool {
        self@.len() <= N
    }

    /// An empty vector.
    pub fn new() -> (r: Self)
        ensures
            r@ == Seq::<T>::empty(),
            r.wf(),
    {
        SmallVec { data: Vec::new() }
    }

    /// Removes every item.
    pub fn clear(&mut self)
        ensures
            final(self)@ == Seq::<T>::empty(),
            final(self).wf(),
    {
        self.data = Vec::new();
    }

    /// Appends an item; there must be room for it.
    pub fn push(&mut self, value: T)
        requires
            old(self)@.len() < N,
        ensures
            final(self)@ == old(self)@.push(value),
            final(self).wf(),
    {
        self.data.push(value);
    }

    /// Removes and returns the last item, if any.
    pub fn pop(&mut self) -> (r: Option<T>)
        requires
            old(self).wf(),
        ensures
            final(self).wf(),
            old(self)@.len() == 0 ==> r is None && final(self)@ == old(self)@,
            old(self)@.len() > 0 ==> r == Some(old(self)@.last()) && final(self)@ == old(
                self,
            )@.drop_last(),
    {
        self.data.pop()
    }

    /// The number of items.
    pub fn len(&self) -> (r: usize)
        ensures
            r == self@.len(),
    {
        self.data.len()
    }

    /// There are no items.
    pub fn is_empty(&self) -> (r: bool)
        ensures
            r == (self@.len() == 0),
    {
        self.data.len() == 0
    }

    /// The item at `index`.
    pub fn get(&self, index: usize) -> (r: &T)
        requires
            index < self@.len(),
        ensures
            *r == self@[index as int],
    {
        &self.data[index]
    }

    /// The items, as a slice.
    pub fn as_slice(&self) -> (r: &[T])
        ensures
            r@ == self@,
    {
        self.data.as_slice()
    }
}


impl<T: Copy, const N: usize> Clone for SmallVec<T, N> {
    fn clone(&self) -> (r: Self)
        ensures
            r@ == self@,
    {
        let mut data: Vec<T> = Vec::new();
        let n = self.data.len();
        let mut i: usize = 0;
        while i < n
            invariant
                i <= n,
                n == self.data@.len(),
                data@ == self.data@.subrange(0, i as int),
            decreases n - i,
        {
            data.push(self.data[i]);
            proof {
                assert(data@ =~= self.data@.subrange(0, i + 1));
            }
            i = i + 1;
        }
        assert(data@ =~= self.data@);
        SmallVec { data }
    }
}

} // verus!
