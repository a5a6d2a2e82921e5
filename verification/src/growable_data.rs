use vstd::prelude::*;
use crate::data::Data;

verus! {

/// A [`Data`] buffer whose prefix and suffix reserves are tracked by the
/// verifier: every windowing operation states exactly how the reserves
/// change, so a layer that needs room for its header proves, before the
/// program runs, that the reserve it will write into exists; no operation
/// can overstate the true reserve.
#[derive(Debug)]
pub struct GrowableData {
    pub data: Data,
}

impl GrowableData {
    pub open spec fn wf(&self) -> bool {
        self.data.wf()
    }

    pub open spec fn full(&self) -> Seq<u8> {
        self.data.full()
    }

    pub open spec fn window(&self) -> Seq<u8> {
        self.data.window()
    }

    pub open spec fn prefix_capacity(&self) -> int {
        self.data.prefix_reserve()
    }

    pub open spec fn suffix_capacity(&self) -> int {
        self.data.suffix_reserve()
    }

    pub open spec fn spec_len(&self) -> int {
        self.data.spec_len()
    }

    /// Wrap an allocation with no reserve on either side.
    pub fn from_vec(storage: Vec<u8>) -> (r: GrowableData)
        ensures
            r.wf(),
            r.full() == storage@,
            r.window() == storage@,
            r.prefix_capacity() == 0,
            r.suffix_capacity() == 0,
    {
        GrowableData { data: Data::from_vec(storage) }
    }

    /// Wrap a raw buffer, re-validating that its actual reserves are exactly
    /// the ones the caller declares; hands the buffer back unchanged
    /// otherwise.
    pub fn try_from_data(data: Data, prefix_bytes: usize, suffix_bytes: usize) -> (r: Result<
        GrowableData,
        Data,
    >)
        requires
            data.wf(),
        ensures
            (r is Ok <==> data.prefix_reserve() == prefix_bytes && data.suffix_reserve()
                == suffix_bytes),
            r matches Ok(g) ==> g.data == data,
            r matches Err(d) ==> d == data,
    {
        if data.available_prefix_bytes() == prefix_bytes && data.available_suffix_bytes()
            == suffix_bytes {
            Ok(GrowableData { data })
        } else {
            Err(data)
        }
    }

    pub fn available_prefix_bytes(&self) -> (r: usize)
        ensures
            r == self.prefix_capacity(),
    {
        self.data.available_prefix_bytes()
    }

    pub fn available_suffix_bytes(&self) -> (r: usize)
        requires
            self.wf(),
        ensures
            r == self.suffix_capacity(),
    {
        self.data.available_suffix_bytes()
    }

    pub fn len(&self) -> (r: usize)
        requires
            self.wf(),
        ensures
            r == self.spec_len(),
    {
        self.data.len()
    }

    /// Shrink the window by `delete_begin` bytes at the front and
    /// `delete_end` at the back; the deleted bytes are not discarded but
    /// join the reserves, which grow by exactly the deleted amounts.
    pub fn into_subregion(self, delete_begin: usize, delete_end: usize) -> (r: GrowableData)
        requires
            self.wf(),
            delete_begin + delete_end <= self.spec_len(),
        ensures
            r.wf(),
            r.full() == self.full(),
            r.prefix_capacity() == self.prefix_capacity() + delete_begin,
            r.suffix_capacity() == self.suffix_capacity() + delete_end,
            r.spec_len() == self.spec_len() - delete_begin - delete_end,
            r.window() == self.window().subrange(
                delete_begin as int,
                self.spec_len() - delete_end,
            ),
    {
        GrowableData { data: self.data.into_subregion(delete_begin, delete_end) }
    }

    /// Expand the window to reclaim `add_begin` bytes from the prefix
    /// reserve and `add_end` from the suffix reserve; the caller must prove
    /// the reserves are large enough.
    pub fn grow_region(self, add_begin: usize, add_end: usize) -> (r: GrowableData)
        requires
            self.wf(),
            add_begin <= self.prefix_capacity(),
            add_end <= self.suffix_capacity(),
        ensures
            r.wf(),
            r.full() == self.full(),
            r.prefix_capacity() == self.prefix_capacity() - add_begin,
            r.suffix_capacity() == self.suffix_capacity() - add_end,
            r.spec_len() == self.spec_len() + add_begin + add_end,
            r.window().subrange(add_begin as int, add_begin + self.spec_len())
                == self.window(),
    {
        GrowableData { data: self.data.grow_region(add_begin, add_end) }
    }

    /// Unwrap back to the raw buffer, losing the tracked-capacity guarantee.
    pub fn extract(self) -> (r: Data)
        ensures
            r == self.data,
    {
        self.data
    }

    pub fn get(&self, i: usize) -> (r: u8)
        requires
            self.wf(),
            i < self.spec_len(),
        ensures
            r == self.window()[i as int],
    {
        self.data.get(i)
    }

    pub fn set(&mut self, i: usize, value: u8)
        requires
            old(self).wf(),
            i < old(self).spec_len(),
        ensures
            final(self).wf(),
            final(self).window() == old(self).window().update(i as int, value),
            final(self).prefix_capacity() == old(self).prefix_capacity(),
            final(self).suffix_capacity() == old(self).suffix_capacity(),
            final(self).spec_len() == old(self).spec_len(),
    {
        self.data.set(i, value);
    }

    /// A copy of the window's bytes.
    pub fn to_vec(&self) -> (r: Vec<u8>)
        requires
            self.wf(),
        ensures
            r@ == self.window(),
    {
        self.data.to_vec()
    }

    /// The window as a borrowed slice.
    pub fn as_ref(&self) -> (r: &[u8])
        requires
            self.wf(),
        ensures
            r@ == self.window(),
    {
        self.data.as_ref()
    }

    /// Read access to the window through a mutable binding; the window
    /// itself cannot be handed out as a mutable slice here, so this returns
    /// the same borrowed view as [`Self::as_ref`].
    pub fn as_mut(&mut self) -> (r: &[u8])
        requires
            old(self).wf(),
        ensures
            *final(self) == *old(self),
            r@ == final(self).window(),
    {
        self.data.as_ref()
    }
}

/// Composed window shrinks collapse into one: after shrinking a window by
/// `a1`/`b1` and the result by `a2`/`b2`, the reserves have grown by the
/// sums and the remaining window is the single corresponding subrange of
/// the original window. With `into_subregion`'s contract this pins the
/// outcome of any chain of windowing operations to one slice of the
/// original bytes, the reserves never smaller than the amounts shrunk.
pub proof fn lemma_shrink_compose(w: Seq<u8>, a1: int, b1: int, a2: int, b2: int)
    requires
        0 <= a1,
        0 <= b1,
        a1 + b1 <= w.len(),
        0 <= a2,
        0 <= b2,
        a2 + b2 <= w.len() - a1 - b1,
    ensures
        w.subrange(a1, w.len() - b1).subrange(a2, (w.len() - a1 - b1) - b2) == w.subrange(
            a1 + a2,
            w.len() - b1 - b2,
        ),
{
    assert(w.subrange(a1, w.len() - b1).subrange(a2, (w.len() - a1 - b1) - b2) =~= w.subrange(
        a1 + a2,
        w.len() - b1 - b2,
    ));
}

} // verus!
