//! Short lists of value ids.

use vstd::prelude::*;

verus! {

/// A short list of value ids, kept inline by `smallvec` up to four ids.
#[verifier::external_body]
#[derive(PartialEq, Eq, Debug)]
pub struct IdList {
    inner: smallvec::SmallVec<[u8; 4]>,
}

/// The ids that a list holds, in order.
pub uninterp spec fn ids_of(list: IdList) -> Seq<u8>;

impl View for IdList {
    type V = Seq<u8>;

    open spec fn view(&self) -> Seq<u8> {
        ids_of(*self)
    }
}

impl IdList {
    /// `SmallVec::new`: a list that holds nothing.
    #[verifier::external_body]
    pub(crate) fn new() -> (r: IdList)
        ensures
            ids_of(r) == Seq::<u8>::empty(),
    {
        IdList { inner: smallvec::SmallVec::new() }
    }

    /// `SmallVec::push`: the id joins the list at its end.
    #[verifier::external_body]
    pub(crate) fn push(&mut self, id: u8)
        ensures
            ids_of(*final(self)) == ids_of(*old(self)).push(id),
    {
        self.inner.push(id)
    }

    /// `SmallVec::len`: how many ids the list holds.
    #[verifier::external_body]
    pub(crate) fn len(&self) -> (r: usize)
        ensures
            r == ids_of(*self).len(),
    {
        self.inner.len()
    }

    /// Indexing a `SmallVec` gives the id at the position.
    #[verifier::external_body]
    pub(crate) fn get(&self, i: usize) -> (r: u8)
        requires
            i < ids_of(*self).len(),
        ensures
            r == ids_of(*self)[i as int],
    {
        self.inner[i]
    }

    /// `SmallVec::swap_remove`: the id at the position leaves the list, and
    /// the last id takes its place.
    #[verifier::external_body]
    pub(crate) fn swap_remove(&mut self, i: usize) -> (r: u8)
        requires
            i < ids_of(*old(self)).len(),
        ensures
            r == ids_of(*old(self))[i as int],
            ids_of(*final(self)) == ids_of(*old(self)).update(
                i as int,
                ids_of(*old(self)).last(),
            ).drop_last(),
    {
        self.inner.swap_remove(i)
    }

    /// Whether the list holds no id.
    pub fn is_empty(&self) -> (r: bool)
        ensures
            r == (self@.len() == 0),
    {
        self.len() == 0
    }

    /// Whether the list holds `id`.
    pub fn contains(&self, id: u8) -> (r: bool)
        ensures
            r == self@.contains(id),
    {
        let mut i: usize = 0;
        while i < self.len()
            invariant
                i <= self@.len(),
                forall|j: int| 0 <= j < i ==> self@[j] != id,
            decreases self@.len() - i,
        {
            if self.get(i) == id {
                return true;
            }
            i += 1;
        }
        false
    }

    /// A list of the same ids.
    pub fn copy(&self) -> (r: IdList)
        ensures
            r@ == self@,
    {
        let mut r: IdList = IdList::new();
        let mut i: usize = 0;
        proof {
            assert(self@.take(0) =~= Seq::<u8>::empty());
        }
        while i < self.len()
            invariant
                i <= self@.len(),
                r@ == self@.take(i as int),
            decreases self@.len() - i,
        {
            proof {
                assert(self@.take(i + 1) =~= self@.take(i as int).push(self@[i as int]));
            }
            let id: u8 = self.get(i);
            r.push(id);
            i += 1;
        }
        proof {
            assert(self@.take(self@.len() as int) =~= self@);
        }
        r
    }

    /// The list of the ids `from`.
    pub fn of(from: &[u8]) -> (r: IdList)
        ensures
            r@ == from@,
    {
        let mut r: IdList = IdList::new();
        let mut i: usize = 0;
        proof {
            assert(from@.take(0) =~= Seq::<u8>::empty());
        }
        while i < from.len()
            invariant
                i <= from@.len(),
                r@ == from@.take(i as int),
            decreases from@.len() - i,
        {
            proof {
                assert(from@.take(i + 1) =~= from@.take(i as int).push(from@[i as int]));
            }
            r.push(from[i]);
            i += 1;
        }
        proof {
            assert(from@.take(from@.len() as int) =~= from@);
        }
        r
    }

    /// The ids of the list as a vector.
    pub fn to_vec(&self) -> (r: Vec<u8>)
        ensures
            r@ == self@,
    {
        let mut r: Vec<u8> = Vec::new();
        let mut i: usize = 0;
        while i < self.len()
            invariant
                i <= self@.len(),
                r@ == self@.take(i as int),
            decreases self@.len() - i,
        {
            proof {
                assert(self@.take(i + 1) =~= self@.take(i as int).push(self@[i as int]));
            }
            let id: u8 = self.get(i);
            r.push(id);
            i += 1;
        }
        proof {
            assert(self@.take(self@.len() as int) =~= self@);
        }
        r
    }
}

/// Whether the ids of `s` rise strictly.
pub open spec fn rising(s: Seq<u8>) -> bool {
    forall|i: int, j: int| 0 <= i < j < s.len() ==> s[i] < s[j]
}

/// Adds `id` to a list whose ids rise, at its place, unless it is there.
pub fn insert_id(list: &mut IdList, id: u8)
    requires
        rising(old(list)@),
    ensures
        rising(final(list)@),
        forall|x: u8| final(list)@.contains(x) <==> (old(list)@.contains(x) || x == id),
{
    if list.contains(id) {
        return;
    }
    let ghost before = list@;
    let n: usize = list.len();
    let mut r: IdList = IdList::new();
    let mut i: usize = 0;
    proof {
        assert(before.take(0) =~= Seq::<u8>::empty());
    }
    while i < n && list.get(i) < id
        invariant
            i <= n == before.len(),
            list@ == before,
            r@ == before.take(i as int),
            forall|j: int| 0 <= j < i ==> before[j] < id,
        decreases n - i,
    {
        proof {
            assert(before.take(i + 1) =~= before.take(i as int).push(before[i as int]));
        }
        let x: u8 = list.get(i);
        r.push(x);
        i += 1;
    }
    let ghost at = i as int;
    r.push(id);
    proof {
        if i < n {
            assert(before.contains(before[at]));
        }
        assert(r@ =~= before.take(at).push(id) + before.subrange(at, at));
    }
    while i < n
        invariant
            0 <= at <= i <= n == before.len(),
            list@ == before,
            r@ == before.take(at).push(id) + before.subrange(at, i as int),
        decreases n - i,
    {
        proof {
            assert(before.take(at).push(id) + before.subrange(at, i + 1) =~= (before.take(at).push(
                id,
            ) + before.subrange(at, i as int)).push(before[i as int]));
        }
        let x: u8 = list.get(i);
        r.push(x);
        i += 1;
    }
    proof {
        let s = r@;
        assert(s.len() == before.len() + 1);
        assert forall|k: int| 0 <= k < s.len() implies s[k] == (if k < at {
            before[k]
        } else if k == at {
            id
        } else {
            before[k - 1]
        }) by {}
        assert forall|x: u8| s.contains(x) <==> (before.contains(x) || x == id) by {
            if before.contains(x) {
                let k = choose|k: int| 0 <= k < before.len() && before[k] == x;
                if k < at {
                    assert(s[k] == x);
                } else {
                    assert(s[k + 1] == x);
                }
            }
            if x == id {
                assert(s[at] == x);
            }
            if s.contains(x) {
                let k = choose|k: int| 0 <= k < s.len() && s[k] == x;
                if k < at {
                    assert(before[k] == x);
                } else if k > at {
                    assert(before[k - 1] == x);
                }
            }
        }
    }
    *list = r;
}

} // verus!
