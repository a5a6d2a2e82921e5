use vstd::prelude::*;
use crate::data::Data;
use crate::error::BlockStoreError;
use crate::growable_data::GrowableData;
use crate::store::BlockId;
use crate::store::BlockStore;

verus! {

broadcast use vstd::set::group_set_axioms;

/// The association map an entry list denotes: later entries win, though the
/// store's invariant keeps the keys unique.
pub open spec fn blocks_of(s: Seq<(Vec<u8>, Vec<u8>)>) -> Map<Seq<u8>, Seq<u8>>
    decreases s.len(),
{
    if s.len() == 0 {
        Map::empty()
    } else {
        blocks_of(s.drop_last()).insert(s.last().0@, s.last().1@)
    }
}

pub open spec fn keys_unique(s: Seq<(Vec<u8>, Vec<u8>)>) -> bool {
    forall|i: int, j: int| 0 <= i < j < s.len() ==> s[i].0@ != s[j].0@
}

proof fn lemma_blocks_of_contains(s: Seq<(Vec<u8>, Vec<u8>)>, k: Seq<u8>)
    ensures
        blocks_of(s).dom().contains(k) <==> exists|i: int|
            0 <= i < s.len() && #[trigger] s[i].0@ == k,
    decreases s.len(),
{
    if s.len() == 0 {
    } else {
        let s2 = s.drop_last();
        lemma_blocks_of_contains(s2, k);
        if blocks_of(s).dom().contains(k) {
            if k == s.last().0@ {
                assert(s[s.len() - 1].0@ == k);
            } else {
                let i = choose|i: int| 0 <= i < s2.len() && #[trigger] s2[i].0@ == k;
                assert(s[i].0@ == k);
            }
        }
        if exists|i: int| 0 <= i < s.len() && #[trigger] s[i].0@ == k {
            let i = choose|i: int| 0 <= i < s.len() && #[trigger] s[i].0@ == k;
            if i < s.len() - 1 {
                assert(s2[i].0@ == k);
            } else {
                assert(k == s.last().0@);
            }
        }
    }
}

proof fn lemma_blocks_of_get(s: Seq<(Vec<u8>, Vec<u8>)>, i: int)
    requires
        0 <= i < s.len(),
        forall|j: int| i < j < s.len() ==> s[j].0@ != s[i].0@,
    ensures
        blocks_of(s).dom().contains(s[i].0@),
        blocks_of(s)[s[i].0@] == s[i].1@,
    decreases s.len(),
{
    lemma_blocks_of_contains(s, s[i].0@);
    if i == s.len() - 1 {
    } else {
        let s2 = s.drop_last();
        assert(s.last().0@ != s[i].0@);
        lemma_blocks_of_get(s2, i);
    }
}

proof fn lemma_blocks_of_finite(s: Seq<(Vec<u8>, Vec<u8>)>)
    ensures
        blocks_of(s).dom().finite(),
    decreases s.len(),
{
    if s.len() == 0 {
    } else {
        lemma_blocks_of_finite(s.drop_last());
    }
}

proof fn lemma_blocks_of_len(s: Seq<(Vec<u8>, Vec<u8>)>)
    requires
        keys_unique(s),
    ensures
        blocks_of(s).dom().finite(),
        blocks_of(s).dom().len() == s.len(),
    decreases s.len(),
{
    lemma_blocks_of_finite(s);
    if s.len() == 0 {
    } else {
        let s2 = s.drop_last();
        let k = s.last().0@;
        lemma_blocks_of_len(s2);
        lemma_blocks_of_contains(s2, k);
        assert(!blocks_of(s2).dom().contains(k));
    }
}

proof fn lemma_blocks_of_update(s: Seq<(Vec<u8>, Vec<u8>)>, i: int, v: (Vec<u8>, Vec<u8>))
    requires
        0 <= i < s.len(),
        keys_unique(s),
        v.0@ == s[i].0@,
    ensures
        blocks_of(s.update(i, v)) == blocks_of(s).insert(v.0@, v.1@),
    decreases s.len(),
{
    let t = s.update(i, v);
    if i == s.len() - 1 {
        assert(t.drop_last() =~= s.drop_last());
        assert(t.last() == v);
        assert(blocks_of(t) =~= blocks_of(s).insert(v.0@, v.1@));
    } else {
        let s2 = s.drop_last();
        assert(t.drop_last() =~= s2.update(i, v));
        assert(t.last() == s.last());
        lemma_blocks_of_update(s2, i, v);
        assert(s.last().0@ != v.0@);
        assert(blocks_of(t) == blocks_of(s2).insert(v.0@, v.1@).insert(
            s.last().0@,
            s.last().1@,
        ));
        assert(blocks_of(s2).insert(v.0@, v.1@).insert(s.last().0@, s.last().1@)
            =~= blocks_of(s2).insert(s.last().0@, s.last().1@).insert(v.0@, v.1@));
    }
}

proof fn lemma_blocks_of_remove(s: Seq<(Vec<u8>, Vec<u8>)>, i: int)
    requires
        0 <= i < s.len(),
        keys_unique(s),
    ensures
        blocks_of(s.remove(i)) == blocks_of(s).remove(s[i].0@),
    decreases s.len(),
{
    let k = s[i].0@;
    let t = s.remove(i);
    s.remove_ensures(i);
    if i == s.len() - 1 {
        assert(t =~= s.drop_last());
        lemma_blocks_of_contains(s.drop_last(), k);
        assert(!blocks_of(s.drop_last()).dom().contains(k));
        assert(blocks_of(s.drop_last()) =~= blocks_of(s).remove(k));
    } else {
        let s2 = s.drop_last();
        assert(t.last() == s.last());
        assert(t.drop_last() =~= s2.remove(i));
        lemma_blocks_of_remove(s2, i);
        assert(s.last().0@ != k);
        assert(blocks_of(t) == blocks_of(s2).remove(k).insert(s.last().0@, s.last().1@));
        assert(blocks_of(s2).remove(k).insert(s.last().0@, s.last().1@) =~= blocks_of(
            s2,
        ).insert(s.last().0@, s.last().1@).remove(k));
    }
}

/// Byte-exact comparison of two slices.
fn bytes_eq(a: &[u8], b: &[u8]) -> (r: bool)
    ensures
        r == (a@ == b@),
{
    if a.len() != b.len() {
        return false;
    }
    let n = a.len();
    let mut i: usize = 0;
    while i < n
        invariant
            n == a@.len(),
            n == b@.len(),
            i <= n,
            forall|j: int| 0 <= j < i ==> a@[j] == b@[j],
        decreases n - i,
    {
        if a[i] != b[i] {
            return false;
        }
        i = i + 1;
    }
    proof {
        assert(a@ =~= b@);
    }
    true
}

/// Copy a slice into a fresh vector.
fn copy_bytes(src: &[u8]) -> (r: Vec<u8>)
    ensures
        r@ == src@,
{
    let n = src.len();
    let mut r: Vec<u8> = Vec::new();
    let mut i: usize = 0;
    while i < n
        invariant
            n == src@.len(),
            i <= n,
            r@ =~= src@.take(i as int),
        decreases n - i,
    {
        r.push(src[i]);
        i = i + 1;
    }
    proof {
        assert(r@ =~= src@);
    }
    r
}

/// A heap-backed block store: an entry list with unique keys. It reserves no
/// prefix bytes of its own and never fails, which makes it the reference
/// backend for exercising the encryption layer.
pub struct InMemoryBlockStore {
    pub entries: Vec<(Vec<u8>, Vec<u8>)>,
}

impl InMemoryBlockStore {
    pub fn new() -> (r: InMemoryBlockStore)
        ensures
            r.inv(),
            r.blocks() == Map::<Seq<u8>, Seq<u8>>::empty(),
    {
        InMemoryBlockStore { entries: Vec::new() }
    }

    /// The index holding `id`, if any.
    fn find(&self, id: &BlockId) -> (r: Option<usize>)
        ensures
            r matches Some(i) ==> i < self.entries@.len() && self.entries@[i as int].0@ == id@,
            r is None ==> forall|i: int|
                0 <= i < self.entries@.len() ==> self.entries@[i].0@ != id@,
    {
        let n = self.entries.len();
        let mut i: usize = 0;
        while i < n
            invariant
                n == self.entries@.len(),
                i <= n,
                forall|j: int| 0 <= j < i ==> self.entries@[j].0@ != id@,
            decreases n - i,
        {
            if bytes_eq(self.entries[i].0.as_slice(), id.data()) {
                return Some(i);
            }
            i = i + 1;
        }
        None
    }
}

impl BlockStore for InMemoryBlockStore {
    open spec fn blocks(&self) -> Map<Seq<u8>, Seq<u8>> {
        blocks_of(self.entries@)
    }

    open spec fn inv(&self) -> bool {
        keys_unique(self.entries@)
    }

    open spec fn spec_free_bytes(&self) -> u64 {
        u64::MAX
    }

    open spec fn spec_required_prefix(&self) -> nat {
        0
    }

    fn required_prefix_bytes_total(&self) -> (r: usize) {
        0
    }

    fn load(&self, id: &BlockId) -> (r: Result<Option<Data>, BlockStoreError>) {
        proof {
            lemma_blocks_of_contains(self.entries@, id@);
        }
        match self.find(id) {
            Some(i) => {
                proof {
                    lemma_blocks_of_get(self.entries@, i as int);
                }
                let payload = copy_bytes(self.entries[i].1.as_slice());
                Ok(Some(Data::from_vec(payload)))
            },
            None => Ok(None),
        }
    }

    fn store_optimized(&mut self, id: &BlockId, data: GrowableData) -> (r: Result<
        (),
        BlockStoreError,
    >) {
        let key = copy_bytes(id.data());
        let payload = data.to_vec();
        match self.find(id) {
            Some(i) => {
                proof {
                    lemma_blocks_of_update(self.entries@, i as int, (key, payload));
                }
                self.entries.set(i, (key, payload));
                proof {
                    assert(keys_unique(self.entries@));
                }
                Ok(())
            },
            None => {
                let ghost before = self.entries@;
                self.entries.push((key, payload));
                proof {
                    assert(self.entries@.drop_last() =~= before);
                    assert(blocks_of(self.entries@) == blocks_of(before).insert(
                        key@,
                        payload@,
                    ));
                    assert(keys_unique(self.entries@));
                }
                Ok(())
            },
        }
    }

    fn try_create_optimized(&mut self, id: &BlockId, data: GrowableData) -> (r: Result<
        bool,
        BlockStoreError,
    >) {
        proof {
            lemma_blocks_of_contains(self.entries@, id@);
        }
        match self.find(id) {
            Some(_) => Ok(false),
            None => {
                let key = copy_bytes(id.data());
                let payload = data.to_vec();
                let ghost before = self.entries@;
                self.entries.push((key, payload));
                proof {
                    assert(self.entries@.drop_last() =~= before);
                    assert(blocks_of(self.entries@) == blocks_of(before).insert(
                        key@,
                        payload@,
                    ));
                    assert(keys_unique(self.entries@));
                }
                Ok(true)
            },
        }
    }

    fn remove(&mut self, id: &BlockId) -> (r: Result<bool, BlockStoreError>) {
        proof {
            lemma_blocks_of_contains(self.entries@, id@);
        }
        match self.find(id) {
            Some(i) => {
                proof {
                    lemma_blocks_of_remove(self.entries@, i as int);
                    self.entries@.remove_ensures(i as int);
                }
                let ghost before = self.entries@;
                self.entries.remove(i);
                proof {
                    assert forall|a: int, b: int|
                        0 <= a < b < self.entries@.len() implies self.entries@[a].0@
                        != self.entries@[b].0@ by {
                        before.remove_ensures(i as int);
                    }
                }
                Ok(true)
            },
            None => {
                proof {
                    assert(blocks_of(self.entries@) =~= blocks_of(self.entries@).remove(id@));
                }
                Ok(false)
            },
        }
    }

    fn num_blocks(&self) -> (r: Result<u64, BlockStoreError>) {
        proof {
            lemma_blocks_of_len(self.entries@);
        }
        Ok(self.entries.len() as u64)
    }

    fn estimate_num_free_bytes(&self) -> (r: Result<u64, BlockStoreError>) {
        Ok(u64::MAX)
    }

    fn all_blocks(&self) -> (r: Result<Vec<BlockId>, BlockStoreError>) {
        proof {
            lemma_blocks_of_len(self.entries@);
        }
        let n = self.entries.len();
        let mut ids: Vec<BlockId> = Vec::new();
        let mut i: usize = 0;
        while i < n
            invariant
                n == self.entries@.len(),
                i <= n,
                ids@.len() == i,
                forall|j: int| 0 <= j < i ==> #[trigger] ids@[j]@ == self.entries@[j].0@,
            decreases n - i,
        {
            let key = copy_bytes(self.entries[i].0.as_slice());
            ids.push(BlockId::new(key));
            i = i + 1;
        }
        proof {
            assert forall|k: Seq<u8>| self.blocks().dom().contains(k) implies exists|j: int|
                0 <= j < ids@.len() && #[trigger] ids@[j]@ == k by {
                lemma_blocks_of_contains(self.entries@, k);
                let j = choose|j: int|
                    0 <= j < self.entries@.len() && #[trigger] self.entries@[j].0@ == k;
                assert(ids@[j]@ == k);
            }
            assert forall|j: int| 0 <= j < ids@.len() implies self.blocks().dom().contains(
                #[trigger] ids@[j]@,
            ) by {
                lemma_blocks_of_contains(self.entries@, ids@[j]@);
                assert(self.entries@[j].0@ == ids@[j]@);
            }
        }
        Ok(ids)
    }
}

} // verus!
