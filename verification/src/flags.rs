use vstd::prelude::*;

use crate::slots::SlotId;

verus! {

/// Whether a sequence of ids names `j`.
pub open spec fn id_in(ids: Seq<SlotId>, j: int) -> bool {
    exists|k: int| 0 <= k < ids.len() && (#[trigger] ids[k]) == j
}

/// Whether any of the given ids has its flag set.
pub open spec fn any_enabled_in(flags: Seq<bool>, ids: Seq<SlotId>) -> bool {
    exists|k: int| 0 <= k < ids.len() && (#[trigger] ids[k]) < flags.len() && flags[ids[k] as int]
}

/// How many flags are set.
pub open spec fn count_true(flags: Seq<bool>) -> nat
    decreases flags.len(),
{
    if flags.len() == 0 {
        0
    } else {
        count_true(flags.drop_last()) + (if flags.last() {
            1nat
        } else {
            0nat
        })
    }
}

/// The ids whose flag is set, in ascending order.
pub open spec fn enabled_ids_of(flags: Seq<bool>) -> Seq<SlotId>
    decreases flags.len(),
{
    if flags.len() == 0 {
        Seq::empty()
    } else {
        enabled_ids_of(flags.drop_last()) + (if flags.last() {
            seq![(flags.len() - 1) as SlotId]
        } else {
            Seq::empty()
        })
    }
}

/// A flag set after enabling the given ids: their flags set, all others
/// untouched.
pub open spec fn flags_set(flags: Seq<bool>, ids: Seq<SlotId>) -> Seq<bool> {
    Seq::new(flags.len(), |j: int| flags[j] || id_in(ids, j))
}

/// A flag set after disabling the given ids: their flags clear, all others
/// untouched.
pub open spec fn flags_cleared(flags: Seq<bool>, ids: Seq<SlotId>) -> Seq<bool> {
    Seq::new(flags.len(), |j: int| flags[j] && !id_in(ids, j))
}

/// A bitset overlay addressing the same index space as a slot store, marking
/// a subset of slots as enabled in some named role (approver, allowed
/// destination).
pub struct SlotFlags<const N: usize> {
    pub enabled: Vec<bool>,
}

impl<const N: usize> View for SlotFlags<N> {
    type V = Seq<bool>;

    open spec fn view(&self) -> Seq<bool> {
        self.enabled@
    }
}

impl<const N: usize> SlotFlags<N> {
    /// A flag set always covers exactly its store's capacity.
    pub open spec fn wf(&self) -> bool {
        self.enabled@.len() == N
    }

    /// A flag set with every flag clear.
    pub fn zero() -> (r: Self)
        ensures
            r.wf(),
            forall|j: int| 0 <= j < N ==> !r@[j],
    {
        let mut enabled: Vec<bool> = Vec::new();
        let mut i: usize = 0;
        while i < N
            invariant
                i <= N,
                enabled@.len() == i,
                forall|j: int| 0 <= j < i ==> !enabled@[j],
            decreases N - i,
        {
            enabled.push(false);
            i += 1;
        }
        SlotFlags { enabled }
    }

    /// An identical copy, flag for flag.
    pub fn duplicate(&self) -> (r: Self)
        requires
            self.wf(),
        ensures
            r.wf(),
            r@ == self@,
    {
        let mut enabled: Vec<bool> = Vec::new();
        let mut i: usize = 0;
        while i < self.enabled.len()
            invariant
                i <= self.enabled@.len(),
                enabled@.len() == i,
                forall|j: int| 0 <= j < i ==> enabled@[j] == self.enabled@[j],
            decreases self.enabled@.len() - i,
        {
            enabled.push(self.enabled[i]);
            i += 1;
        }
        proof {
            assert(enabled@ =~= self.enabled@);
        }
        SlotFlags { enabled }
    }

    /// Whether one slot's flag is set.
    pub fn is_enabled(&self, id: SlotId) -> (r: bool)
        requires
            self.wf(),
            id < N,
        ensures
            r == self@[id as int],
    {
        self.enabled[id]
    }

    /// Sets the flag of every given id, unconditionally: callers must have
    /// already confirmed that each underlying slot holds the matching value.
    pub fn enable_many(&mut self, ids: &Vec<SlotId>)
        requires
            old(self).wf(),
            forall|k: int| 0 <= k < ids@.len() ==> (#[trigger] ids@[k]) < N,
        ensures
            final(self).wf(),
            forall|j: int|
                0 <= j < N ==> (#[trigger] final(self)@[j]) == (old(self)@[j] || id_in(ids@, j)),
    {
        let ghost orig = self@;
        let mut k: usize = 0;
        while k < ids.len()
            invariant
                self.wf(),
                orig.len() == N,
                k <= ids@.len(),
                forall|w: int| 0 <= w < ids@.len() ==> (#[trigger] ids@[w]) < N,
                forall|j: int|
                    0 <= j < N ==> (#[trigger] self@[j]) == (orig[j] || id_in(
                        ids@.take(k as int),
                        j,
                    )),
            decreases ids@.len() - k,
        {
            let id = ids[k];
            let ghost pre = self@;
            self.enabled[id] = true;
            proof {
                assert(ids@.take(k + 1)[k as int] == ids@[k as int]);
                assert forall|j: int| 0 <= j < N implies (#[trigger] self@[j]) == (orig[j]
                    || id_in(ids@.take(k + 1), j)) by {
                    if j == id {
                        assert(ids@.take(k + 1)[k as int] == j);
                        assert(id_in(ids@.take(k + 1), j));
                    } else {
                        assert(self@[j] == pre[j]);
                        if id_in(ids@.take(k + 1), j) {
                            let w = choose|w: int|
                                0 <= w < ids@.take(k + 1).len() && (#[trigger] ids@.take(k + 1)[w])
                                    == j;
                            assert(0 <= w < k && ids@.take(k as int)[w] == j);
                            assert(id_in(ids@.take(k as int), j));
                        }
                        if id_in(ids@.take(k as int), j) {
                            let w = choose|w: int|
                                0 <= w < ids@.take(k as int).len() && (#[trigger] ids@.take(
                                    k as int,
                                )[w]) == j;
                            assert(ids@.take(k + 1)[w] == j);
                            assert(id_in(ids@.take(k + 1), j));
                        }
                    }
                }
            }
            k += 1;
        }
        proof {
            assert(ids@.take(ids@.len() as int) =~= ids@);
        }
    }

    /// Clears the flag of every given id, unconditionally: disablement must
    /// always be able to catch up with a prior removal of the underlying
    /// value.
    pub fn disable_many(&mut self, ids: &Vec<SlotId>)
        requires
            old(self).wf(),
            forall|k: int| 0 <= k < ids@.len() ==> (#[trigger] ids@[k]) < N,
        ensures
            final(self).wf(),
            forall|j: int|
                0 <= j < N ==> (#[trigger] final(self)@[j]) == (old(self)@[j] && !id_in(ids@, j)),
    {
        let ghost orig = self@;
        let mut k: usize = 0;
        while k < ids.len()
            invariant
                self.wf(),
                orig.len() == N,
                k <= ids@.len(),
                forall|w: int| 0 <= w < ids@.len() ==> (#[trigger] ids@[w]) < N,
                forall|j: int|
                    0 <= j < N ==> (#[trigger] self@[j]) == (orig[j] && !id_in(
                        ids@.take(k as int),
                        j,
                    )),
            decreases ids@.len() - k,
        {
            let id = ids[k];
            let ghost pre = self@;
            self.enabled[id] = false;
            proof {
                assert(ids@.take(k + 1)[k as int] == ids@[k as int]);
                assert forall|j: int| 0 <= j < N implies (#[trigger] self@[j]) == (orig[j]
                    && !id_in(ids@.take(k + 1), j)) by {
                    if j == id {
                        assert(ids@.take(k + 1)[k as int] == j);
                        assert(id_in(ids@.take(k + 1), j));
                    } else {
                        assert(self@[j] == pre[j]);
                        if id_in(ids@.take(k + 1), j) {
                            let w = choose|w: int|
                                0 <= w < ids@.take(k + 1).len() && (#[trigger] ids@.take(k + 1)[w])
                                    == j;
                            assert(0 <= w < k && ids@.take(k as int)[w] == j);
                            assert(id_in(ids@.take(k as int), j));
                        }
                        if id_in(ids@.take(k as int), j) {
                            let w = choose|w: int|
                                0 <= w < ids@.take(k as int).len() && (#[trigger] ids@.take(
                                    k as int,
                                )[w]) == j;
                            assert(ids@.take(k + 1)[w] == j);
                            assert(id_in(ids@.take(k + 1), j));
                        }
                    }
                }
            }
            k += 1;
        }
        proof {
            assert(ids@.take(ids@.len() as int) =~= ids@);
        }
    }

    /// Clears one slot's flag, unconditionally: disablement must always be
    /// able to catch up with a prior removal of the underlying value.
    pub fn disable(&mut self, id: SlotId)
        requires
            old(self).wf(),
            id < N,
        ensures
            final(self).wf(),
            final(self)@ == old(self)@.update(id as int, false),
    {
        self.enabled[id] = false;
    }

    /// Whether any of the given ids currently has its flag set: the basis of
    /// the guard that an in-use signer or destination cannot be removed.
    pub fn any_enabled(&self, ids: &Vec<SlotId>) -> (r: bool)
        requires
            self.wf(),
        ensures
            r == any_enabled_in(self@, ids@),
    {
        let mut k: usize = 0;
        while k < ids.len()
            invariant
                self.wf(),
                k <= ids@.len(),
                forall|w: int| 0 <= w < k ==> !((#[trigger] ids@[w]) < N && self@[ids@[w] as int]),
            decreases ids@.len() - k,
        {
            let id = ids[k];
            if id < N && self.enabled[id] {
                return true;
            }
            k += 1;
        }
        false
    }

    /// How many flags are set; drives every quorum-threshold check.
    pub fn count_enabled(&self) -> (r: usize)
        requires
            self.wf(),
        ensures
            r == count_true(self@),
    {
        let mut count: usize = 0;
        let mut i: usize = 0;
        while i < self.enabled.len()
            invariant
                self.wf(),
                i <= N,
                count <= i,
                count == count_true(self@.take(i as int)),
            decreases self.enabled@.len() - i,
        {
            proof {
                assert(self@.take(i + 1).drop_last() =~= self@.take(i as int));
                assert(self@.take(i + 1).last() == self@[i as int]);
            }
            if self.enabled[i] {
                count += 1;
            }
            i += 1;
        }
        proof {
            assert(self@.take(self@.len() as int) =~= self@);
        }
        count
    }

    /// The ids whose flag is set, in ascending order.
    pub fn enabled_ids(&self) -> (r: Vec<SlotId>)
        requires
            self.wf(),
        ensures
            r@ == enabled_ids_of(self@),
    {
        let mut r: Vec<SlotId> = Vec::new();
        let mut i: usize = 0;
        while i < self.enabled.len()
            invariant
                self.wf(),
                i <= N,
                r@ == enabled_ids_of(self@.take(i as int)),
            decreases self.enabled@.len() - i,
        {
            proof {
                assert(self@.take(i + 1).drop_last() =~= self@.take(i as int));
                assert(self@.take(i + 1).last() == self@[i as int]);
            }
            if self.enabled[i] {
                r.push(i);
                proof {
                    assert(r@ =~= enabled_ids_of(self@.take(i + 1)));
                }
            } else {
                proof {
                    assert(r@ =~= enabled_ids_of(self@.take(i + 1)));
                }
            }
            i += 1;
        }
        proof {
            assert(self@.take(self@.len() as int) =~= self@);
        }
        r
    }
}

} // verus!
