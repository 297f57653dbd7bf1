use vstd::prelude::*;

verus! {

/// A cursor over an already-materialised sequence of items with an arbitrary
/// lookahead: `peek` reads one item further ahead on each call without
/// consuming anything, `reset_peek` rewinds the lookahead cursor, and `next`
/// consumes the front item (which also rewinds the lookahead).
pub struct NanoPeek<T> {
    /// The items the cursor walks over.
    pub inner: Vec<T>,
    /// Index of the next item `next` would consume.
    pub pos: usize,
    /// How far `peek` has looked ahead of `pos`.
    pub idx: usize,
}

impl<T> NanoPeek<T> {
    /// The items not yet consumed by `next`.
    pub open spec fn remaining(&self) -> Seq<T> {
        self.inner@.skip(self.pos as int)
    }

    pub open spec fn wf(&self) -> bool {
        &&& self.pos <= self.inner@.len()
        &&& self.idx <= self.inner@.len() - self.pos
    }

    pub fn new(inner: Vec<T>) -> (r: Self)
        ensures
            r.wf(),
            r.inner@ == inner@,
            r.pos == 0,
            r.idx == 0,
    {
        NanoPeek { inner, pos: 0, idx: 0 }
    }

    /// Reset the peeking cursor.
    pub fn reset_peek(&mut self)
        ensures
            final(self).inner@ == old(self).inner@,
            final(self).pos == old(self).pos,
            final(self).idx == 0,
            old(self).wf() ==> final(self).wf(),
    {
        self.idx = 0;
    }

    /// Read the item `idx` places ahead of the consumption point and advance
    /// the lookahead cursor, or report that the items are exhausted.
    pub fn peek(&mut self) -> (r: Option<&T>)
        requires
            old(self).wf(),
        ensures
            final(self).wf(),
            final(self).inner@ == old(self).inner@,
            final(self).pos == old(self).pos,
            match r {
                Some(x) => {
                    &&& old(self).pos + old(self).idx < old(self).inner@.len()
                    &&& *x == old(self).inner@[old(self).pos + old(self).idx]
                    &&& final(self).idx == old(self).idx + 1
                },
                None => {
                    &&& old(self).pos + old(self).idx >= old(self).inner@.len()
                    &&& final(self).idx == old(self).idx
                },
            },
    {
        let n = self.inner.len();
        if self.idx < n - self.pos {
            let k = self.pos + self.idx;
            self.idx = self.idx + 1;
            Some(&self.inner[k])
        } else {
            None
        }
    }
}

impl<T: Copy> NanoPeek<T> {
    /// Consume and return the front item, rewinding the lookahead cursor.
    pub fn next(&mut self) -> (r: Option<T>)
        requires
            old(self).wf(),
        ensures
            final(self).wf(),
            final(self).inner@ == old(self).inner@,
            final(self).idx == 0,
            match r {
                Some(x) => {
                    &&& old(self).pos < old(self).inner@.len()
                    &&& x == old(self).inner@[old(self).pos as int]
                    &&& final(self).pos == old(self).pos + 1
                    &&& old(self).remaining() == seq![x] + final(self).remaining()
                },
                None => {
                    &&& old(self).pos == old(self).inner@.len()
                    &&& final(self).pos == old(self).pos
                    &&& final(self).remaining().len() == 0
                },
            },
    {
        self.idx = 0;
        if self.pos < self.inner.len() {
            let x = self.inner[self.pos];
            self.pos = self.pos + 1;
            proof {
                assert(old(self).remaining() =~= seq![x] + self.remaining());
            }
            Some(x)
        } else {
            None
        }
    }
}

} // verus!
