use vstd::prelude::*;
use vstd::slice::slice_subrange;

verus! {

/// A byte buffer with three zones laid out in one owned allocation:
/// an unused prefix reserve, the active data window, and an unused suffix
/// reserve. Shrinking the window moves bytes into the reserves; growing it
/// reclaims reserved bytes, which is how layered formats write their headers
/// in place without reallocating.
#[derive(Debug)]
pub struct Data {
    pub storage: Vec<u8>,
    pub begin: usize,
    pub end: usize,
}

impl Data {
    /// The window lies inside the allocation.
    pub open spec fn wf(&self) -> bool {
        self.begin <= self.end && self.end <= self.storage.len()
    }

    /// The whole allocation, reserves included.
    pub open spec fn full(&self) -> Seq<u8> {
        self.storage@
    }

    /// The active data window.
    pub open spec fn window(&self) -> Seq<u8> {
        self.storage@.subrange(self.begin as int, self.end as int)
    }

    /// Unused bytes before the window.
    pub open spec fn prefix_reserve(&self) -> int {
        self.begin as int
    }

    /// Unused bytes after the window.
    pub open spec fn suffix_reserve(&self) -> int {
        self.storage.len() - self.end
    }

    pub open spec fn spec_len(&self) -> int {
        self.end - self.begin
    }

    /// Wrap an allocation; the window covers all of it, both reserves empty.
    pub fn from_vec(storage: Vec<u8>) -> (r: Data)
        ensures
            r.wf(),
            r.full() == storage@,
            r.window() == storage@,
            r.prefix_reserve() == 0,
            r.suffix_reserve() == 0,
    {
        let end = storage.len();
        let r = Data { storage, begin: 0, end };
        proof {
            assert(r.window() =~= r.storage@);
        }
        r
    }

    pub fn len(&self) -> (r: usize)
        requires
            self.wf(),
        ensures
            r == self.spec_len(),
    {
        self.end - self.begin
    }

    pub fn available_prefix_bytes(&self) -> (r: usize)
        ensures
            r == self.prefix_reserve(),
    {
        self.begin
    }

    pub fn available_suffix_bytes(&self) -> (r: usize)
        requires
            self.wf(),
        ensures
            r == self.suffix_reserve(),
    {
        self.storage.len() - self.end
    }

    /// Shrink the window: the deleted bytes join the reserves.
    pub fn into_subregion(self, delete_begin: usize, delete_end: usize) -> (r: Data)
        requires
            self.wf(),
            delete_begin + delete_end <= self.spec_len(),
        ensures
            r.wf(),
            r.full() == self.full(),
            r.prefix_reserve() == self.prefix_reserve() + delete_begin,
            r.suffix_reserve() == self.suffix_reserve() + delete_end,
            r.spec_len() == self.spec_len() - delete_begin - delete_end,
            r.window() == self.window().subrange(
                delete_begin as int,
                self.spec_len() - delete_end,
            ),
    {
        let r = Data {
            begin: self.begin + delete_begin,
            end: self.end - delete_end,
            storage: self.storage,
        };
        proof {
            assert(r.window() =~= self.window().subrange(
                delete_begin as int,
                self.spec_len() - delete_end,
            ));
        }
        r
    }

    /// Grow the window, reclaiming bytes from the reserves.
    pub fn grow_region(self, add_begin: usize, add_end: usize) -> (r: Data)
        requires
            self.wf(),
            add_begin <= self.prefix_reserve(),
            add_end <= self.suffix_reserve(),
        ensures
            r.wf(),
            r.full() == self.full(),
            r.prefix_reserve() == self.prefix_reserve() - add_begin,
            r.suffix_reserve() == self.suffix_reserve() - add_end,
            r.spec_len() == self.spec_len() + add_begin + add_end,
            r.window().subrange(add_begin as int, add_begin + self.spec_len())
                == self.window(),
    {
        let r = Data {
            begin: self.begin - add_begin,
            end: self.end + add_end,
            storage: self.storage,
        };
        proof {
            assert(r.window().subrange(add_begin as int, add_begin + self.spec_len())
                =~= self.window());
        }
        r
    }

    pub fn get(&self, i: usize) -> (r: u8)
        requires
            self.wf(),
            i < self.spec_len(),
        ensures
            r == self.window()[i as int],
    {
        self.storage[self.begin + i]
    }

    pub fn set(&mut self, i: usize, value: u8)
        requires
            old(self).wf(),
            i < old(self).spec_len(),
        ensures
            final(self).wf(),
            final(self).window() == old(self).window().update(i as int, value),
            final(self).full() == old(self).full().update(
                old(self).prefix_reserve() + i,
                value,
            ),
            final(self).prefix_reserve() == old(self).prefix_reserve(),
            final(self).suffix_reserve() == old(self).suffix_reserve(),
            final(self).spec_len() == old(self).spec_len(),
    {
        let idx = self.begin + i;
        self.storage.set(idx, value);
        proof {
            assert(self.window() =~= old(self).window().update(i as int, value));
        }
    }

    /// A copy of the window's bytes.
    pub fn to_vec(&self) -> (r: Vec<u8>)
        requires
            self.wf(),
        ensures
            r@ == self.window(),
    {
        let n = self.end - self.begin;
        let mut r: Vec<u8> = Vec::new();
        let mut i: usize = 0;
        while i < n
            invariant
                self.wf(),
                n == self.spec_len(),
                i <= n,
                r@ =~= self.window().take(i as int),
            decreases n - i,
        {
            r.push(self.storage[self.begin + i]);
            i = i + 1;
        }
        proof {
            assert(r@ =~= self.window());
        }
        r
    }

    /// The window as a borrowed slice.
    pub fn as_ref(&self) -> (r: &[u8])
        requires
            self.wf(),
        ensures
            r@ == self.window(),
    {
        slice_subrange(self.storage.as_slice(), self.begin, self.end)
    }
}

} // verus!
