use vstd::prelude::*;

verus! {

/// Index of a storage position in a fixed-capacity slotted collection.
/// Always supplied explicitly by the caller proposing a change; never
/// inferred from content.
pub type SlotId = usize;

/// A value that can occupy a slot: executable equality whose result means
/// exactly structural equality of the values.
pub trait SlotValue: Copy + Sized {
    fn slot_eq(&self, other: &Self) -> (r: bool)
        ensures
            r == (*self == *other),
    ;
}

/// The value a batch of keyed writes leaves in slot `id`: the value of the
/// last batch entry keyed by `id`, if the batch writes that slot at all.
pub open spec fn last_write<T>(batch: Seq<(SlotId, T)>, id: int) -> Option<T>
    decreases batch.len(),
{
    if batch.len() == 0 {
        None
    } else if batch.last().0 == id {
        Some(batch.last().1)
    } else {
        last_write(batch.drop_last(), id)
    }
}

/// Whether a batch of keyed writes touches slot `id`.
pub open spec fn batch_writes<T>(batch: Seq<(SlotId, T)>, id: int) -> bool {
    exists|k: int| 0 <= k < batch.len() && (#[trigger] batch[k]).0 == id
}

/// Every entry of the batch targets an empty slot of the store.
pub open spec fn can_insert<T>(slots: Seq<Option<T>>, batch: Seq<(SlotId, T)>) -> bool {
    forall|k: int|
        0 <= k < batch.len() ==> (#[trigger] batch[k]).0 < slots.len() && slots[batch[k].0 as int] is None
}

/// Every entry of the batch matches the value its slot currently holds.
pub open spec fn slots_hold<T>(slots: Seq<Option<T>>, batch: Seq<(SlotId, T)>) -> bool {
    forall|k: int|
        0 <= k < batch.len() ==> (#[trigger] batch[k]).0 < slots.len() && slots[batch[k].0 as int]
            == Some(batch[k].1)
}

/// Every entry of the batch either matches the value its slot holds or
/// targets a slot that has already been vacated.
pub open spec fn matches_or_vacant<T>(slots: Seq<Option<T>>, batch: Seq<(SlotId, T)>) -> bool {
    forall|k: int|
        0 <= k < batch.len() ==> (#[trigger] batch[k]).0 < slots.len() && (slots[batch[k].0 as int]
            == Some(batch[k].1) || slots[batch[k].0 as int] is None)
}

/// The store after a batch of inserts: each written slot holds the last
/// value written there, every other slot is untouched.
pub open spec fn inserted<T>(slots: Seq<Option<T>>, batch: Seq<(SlotId, T)>) -> Seq<Option<T>> {
    Seq::new(
        slots.len(),
        |j: int|
            match last_write(batch, j) {
                Some(v) => Some(v),
                None => slots[j],
            },
    )
}

/// The store after a batch of removes: each written slot is empty, every
/// other slot is untouched.
pub open spec fn removed<T>(slots: Seq<Option<T>>, batch: Seq<(SlotId, T)>) -> Seq<Option<T>> {
    Seq::new(slots.len(), |j: int| if batch_writes(batch, j) { None } else { slots[j] })
}

/// The slot ids a batch of keyed writes names, in batch order.
pub open spec fn batch_ids<T>(batch: Seq<(SlotId, T)>) -> Seq<SlotId> {
    batch.map_values(|e: (SlotId, T)| e.0)
}

/// Extracts the slot ids a batch names, in batch order.
pub fn slot_ids<T: Copy>(batch: &Vec<(SlotId, T)>) -> (r: Vec<SlotId>)
    ensures
        r@ == batch_ids(batch@),
{
    let mut r: Vec<SlotId> = Vec::new();
    let mut k: usize = 0;
    while k < batch.len()
        invariant
            k <= batch@.len(),
            r@.len() == k,
            forall|j: int| 0 <= j < k ==> r@[j] == (#[trigger] batch@[j]).0,
        decreases batch@.len() - k,
    {
        let (id, _) = batch[k];
        r.push(id);
        k += 1;
    }
    proof {
        assert(r@ =~= batch_ids(batch@));
    }
    r
}

/// A fixed-capacity, index-addressed collection of optional entries: the
/// foundation for every keyed set in the wallet. A slot is either empty or
/// holds exactly one value; batch mutations pre-validate the entire batch
/// before any slot is touched.
pub struct Slots<T, const N: usize> {
    pub contents: Vec<Option<T>>,
}

impl<T, const N: usize> View for Slots<T, N> {
    type V = Seq<Option<T>>;

    open spec fn view(&self) -> Seq<Option<T>> {
        self.contents@
    }
}

impl<T: SlotValue, const N: usize> Slots<T, N> {
    /// A slot store always holds exactly its capacity in slots.
    pub open spec fn wf(&self) -> bool {
        self.contents@.len() == N
    }

    /// An empty store: every slot vacant.
    pub fn new() -> (r: Self)
        ensures
            r.wf(),
            forall|j: int| 0 <= j < N ==> r@[j] is None,
    {
        let mut contents: Vec<Option<T>> = Vec::new();
        let mut i: usize = 0;
        while i < N
            invariant
                i <= N,
                contents@.len() == i,
                forall|j: int| 0 <= j < i ==> contents@[j] is None,
            decreases N - i,
        {
            contents.push(None);
            i += 1;
        }
        Slots { contents }
    }

    /// An identical copy, slot for slot.
    pub fn duplicate(&self) -> (r: Self)
        requires
            self.wf(),
        ensures
            r.wf(),
            r@ == self@,
    {
        let mut contents: Vec<Option<T>> = Vec::new();
        let mut i: usize = 0;
        while i < self.contents.len()
            invariant
                i <= self.contents@.len(),
                contents@.len() == i,
                forall|j: int| 0 <= j < i ==> contents@[j] == self.contents@[j],
            decreases self.contents@.len() - i,
        {
            contents.push(self.contents[i]);
            i += 1;
        }
        proof {
            assert(contents@ =~= self.contents@);
        }
        Slots { contents }
    }

    /// The value held in one slot.
    pub fn get(&self, id: SlotId) -> (r: Option<T>)
        requires
            self.wf(),
            id < N,
        ensures
            r == self@[id as int],
    {
        self.contents[id]
    }

    /// Whether every entry of the batch targets an empty slot.
    pub fn can_be_inserted(&self, batch: &Vec<(SlotId, T)>) -> (r: bool)
        requires
            self.wf(),
        ensures
            r == can_insert(self@, batch@),
    {
        let mut k: usize = 0;
        while k < batch.len()
            invariant
                self.wf(),
                k <= batch@.len(),
                forall|j: int|
                    0 <= j < k ==> (#[trigger] batch@[j]).0 < N && self@[batch@[j].0 as int] is None,
            decreases batch@.len() - k,
        {
            let (id, _) = batch[k];
            if id >= N || self.contents[id].is_some() {
                return false;
            }
            k += 1;
        }
        true
    }

    /// Writes every entry of the batch into its slot. Callers must have
    /// validated the whole batch first; the store ends with each written
    /// slot holding the last value written there.
    pub fn insert_many(&mut self, batch: &Vec<(SlotId, T)>)
        requires
            old(self).wf(),
            can_insert(old(self)@, batch@),
        ensures
            final(self).wf(),
            final(self)@ == inserted(old(self)@, batch@),
    {
        let ghost orig = self@;
        let mut k: usize = 0;
        while k < batch.len()
            invariant
                self.wf(),
                orig.len() == N,
                k <= batch@.len(),
                can_insert(orig, batch@),
                forall|j: int|
                    0 <= j < N ==> self@[j] == (match last_write(batch@.take(k as int), j) {
                        Some(v) => Some(v),
                        None => orig[j],
                    }),
            decreases batch@.len() - k,
        {
            let (id, v) = batch[k];
            let ghost pre = self@;
            self.contents[id] = Some(v);
            proof {
                assert(batch@.take(k + 1).drop_last() =~= batch@.take(k as int));
                assert(batch@.take(k + 1).last() == batch@[k as int]);
                assert forall|j: int| 0 <= j < N implies self@[j] == (match last_write(
                    batch@.take(k + 1),
                    j,
                ) {
                    Some(v) => Some(v),
                    None => orig[j],
                }) by {
                    if j != id {
                        assert(self@[j] == pre[j]);
                    }
                }
            }
            k += 1;
        }
        proof {
            assert(batch@.take(batch@.len() as int) =~= batch@);
            assert(self@ =~= inserted(orig, batch@));
        }
    }

    /// Whether every entry of the batch matches the value its slot holds or
    /// targets a slot that has already been vacated.
    pub fn all_match_or_vacant(&self, batch: &Vec<(SlotId, T)>) -> (r: bool)
        requires
            self.wf(),
        ensures
            r == matches_or_vacant(self@, batch@),
    {
        let mut k: usize = 0;
        while k < batch.len()
            invariant
                self.wf(),
                k <= batch@.len(),
                forall|j: int|
                    0 <= j < k ==> (#[trigger] batch@[j]).0 < N && (self@[batch@[j].0 as int]
                        == Some(batch@[j].1) || self@[batch@[j].0 as int] is None),
            decreases batch@.len() - k,
        {
            let (id, v) = batch[k];
            if id >= N {
                return false;
            }
            match &self.contents[id] {
                Some(stored) => {
                    if !stored.slot_eq(&v) {
                        return false;
                    }
                },
                None => {},
            }
            k += 1;
        }
        true
    }

    /// Whether every entry of the batch matches the value its slot holds.
    /// Used both to validate removals and to confirm that a reference
    /// resolves to a real, matching entry before it can be enabled.
    fn holds_all(&self, batch: &Vec<(SlotId, T)>) -> (r: bool)
        requires
            self.wf(),
        ensures
            r == slots_hold(self@, batch@),
    {
        let mut k: usize = 0;
        while k < batch.len()
            invariant
                self.wf(),
                k <= batch@.len(),
                forall|j: int|
                    0 <= j < k ==> (#[trigger] batch@[j]).0 < N && self@[batch@[j].0 as int] == Some(
                        batch@[j].1,
                    ),
            decreases batch@.len() - k,
        {
            let (id, v) = batch[k];
            if id >= N {
                return false;
            }
            match &self.contents[id] {
                Some(stored) => {
                    if !stored.slot_eq(&v) {
                        return false;
                    }
                },
                None => {
                    return false;
                },
            }
            k += 1;
        }
        true
    }

    /// Whether every entry of the batch matches the value its slot holds.
    pub fn can_be_removed(&self, batch: &Vec<(SlotId, T)>) -> (r: bool)
        requires
            self.wf(),
        ensures
            r == slots_hold(self@, batch@),
    {
        self.holds_all(batch)
    }

    /// Membership check without mutation.
    pub fn contains(&self, batch: &Vec<(SlotId, T)>) -> (r: bool)
        requires
            self.wf(),
        ensures
            r == slots_hold(self@, batch@),
    {
        self.holds_all(batch)
    }

    /// Empties every slot the batch names. Callers must have validated that
    /// each entry matches what its slot holds (defends against stale-data
    /// removal races between proposal and finalize).
    pub fn remove_many(&mut self, batch: &Vec<(SlotId, T)>)
        requires
            old(self).wf(),
            slots_hold(old(self)@, batch@),
        ensures
            final(self).wf(),
            final(self)@ == removed(old(self)@, batch@),
    {
        let ghost orig = self@;
        let mut k: usize = 0;
        while k < batch.len()
            invariant
                self.wf(),
                orig.len() == N,
                k <= batch@.len(),
                slots_hold(orig, batch@),
                forall|j: int|
                    0 <= j < N ==> self@[j] == (if batch_writes(batch@.take(k as int), j) {
                        None::<T>
                    } else {
                        orig[j]
                    }),
            decreases batch@.len() - k,
        {
            let (id, _) = batch[k];
            let ghost pre = self@;
            self.contents[id] = None;
            proof {
                assert(batch@.take(k + 1)[k as int] == batch@[k as int]);
                assert forall|j: int| 0 <= j < N implies self@[j] == (if batch_writes(
                    batch@.take(k + 1),
                    j,
                ) {
                    None::<T>
                } else {
                    orig[j]
                }) by {
                    if j != id {
                        assert(self@[j] == pre[j]);
                    }
                    if batch_writes(batch@.take(k + 1), j) && j != id {
                        let w = choose|w: int|
                            0 <= w < batch@.take(k + 1).len() && (#[trigger] batch@.take(k + 1)[w]).0
                                == j;
                        assert(0 <= w < k && batch@.take(k as int)[w].0 == j);
                        assert(batch_writes(batch@.take(k as int), j));
                    }
                    if !batch_writes(batch@.take(k + 1), j) {
                        assert(!batch_writes(batch@.take(k as int), j)) by {
                            if batch_writes(batch@.take(k as int), j) {
                                let w = choose|w: int|
                                    0 <= w < batch@.take(k as int).len() && (#[trigger] batch@.take(
                                        k as int,
                                    )[w]).0 == j;
                                assert(batch@.take(k + 1)[w].0 == j);
                            }
                        }
                    }
                }
            }
            k += 1;
        }
        proof {
            assert(batch@.take(batch@.len() as int) =~= batch@);
            assert(self@ =~= removed(orig, batch@));
        }
    }
}


/// One batch operation in a slot store's life: an insert batch or a remove
/// batch.
pub enum SlotOp<T> {
    InsertBatch { batch: Seq<(SlotId, T)> },
    RemoveBatch { batch: Seq<(SlotId, T)> },
}

/// Whether a batch operation's precondition holds of the store: inserts need
/// empty targets, removes need matching values.
pub open spec fn op_accepted<T>(slots: Seq<Option<T>>, op: SlotOp<T>) -> bool {
    match op {
        SlotOp::InsertBatch { batch } => can_insert(slots, batch),
        SlotOp::RemoveBatch { batch } => slots_hold(slots, batch),
    }
}

/// The store after one batch operation: applied when accepted, untouched
/// when rejected (batch operations are all-or-nothing).
pub open spec fn apply_op<T>(slots: Seq<Option<T>>, op: SlotOp<T>) -> Seq<Option<T>> {
    if op_accepted(slots, op) {
        match op {
            SlotOp::InsertBatch { batch } => inserted(slots, batch),
            SlotOp::RemoveBatch { batch } => removed(slots, batch),
        }
    } else {
        slots
    }
}

/// The store after a whole sequence of batch operations, oldest first.
pub open spec fn apply_ops<T>(slots: Seq<Option<T>>, ops: Seq<SlotOp<T>>) -> Seq<Option<T>>
    decreases ops.len(),
{
    if ops.len() == 0 {
        slots
    } else {
        apply_op(apply_ops(slots, ops.drop_last()), ops.last())
    }
}

pub proof fn lemma_apply_ops_len<T>(slots: Seq<Option<T>>, ops: Seq<SlotOp<T>>)
    ensures
        apply_ops(slots, ops).len() == slots.len(),
    decreases ops.len(),
{
    if ops.len() > 0 {
        lemma_apply_ops_len(slots, ops.drop_last());
    }
}

/// The value of the last insert to slot `j` that was accepted at its point
/// in the sequence, if any insert to `j` was ever accepted.
pub open spec fn last_successful_insert<T>(
    slots: Seq<Option<T>>,
    ops: Seq<SlotOp<T>>,
    j: int,
) -> Option<T>
    decreases ops.len(),
{
    if ops.len() == 0 {
        None
    } else {
        let mid = apply_ops(slots, ops.drop_last());
        match ops.last() {
            SlotOp::InsertBatch { batch } => {
                if can_insert(mid, batch) && last_write(batch, j) is Some {
                    last_write(batch, j)
                } else {
                    last_successful_insert(slots, ops.drop_last(), j)
                }
            },
            SlotOp::RemoveBatch { batch } => last_successful_insert(slots, ops.drop_last(), j),
        }
    }
}

/// Slot invariant: a store created empty, taken through any sequence of
/// insert and remove batches of which exactly the accepted ones were
/// applied, has every occupied slot holding the value last successfully
/// inserted there — and each slot holds at most one value by construction.
pub proof fn lemma_slot_invariant<T>(slots: Seq<Option<T>>, ops: Seq<SlotOp<T>>, j: int)
    requires
        0 <= j < slots.len(),
        slots[j] is None,
    ensures
        (match apply_ops(slots, ops)[j] {
            Some(v) => last_successful_insert(slots, ops, j) == Some(v),
            None => true,
        }),
    decreases ops.len(),
{
    if ops.len() > 0 {
        lemma_slot_invariant(slots, ops.drop_last(), j);
        lemma_apply_ops_len(slots, ops.drop_last());
        let mid = apply_ops(slots, ops.drop_last());
        match ops.last() {
            SlotOp::InsertBatch { batch } => {
                if can_insert(mid, batch) {
                    if last_write(batch, j) is None {
                        assert(inserted(mid, batch)[j] == mid[j]);
                    }
                }
            },
            SlotOp::RemoveBatch { batch } => {
                if slots_hold(mid, batch) {
                    if !batch_writes(batch, j) {
                        assert(removed(mid, batch)[j] == mid[j]);
                    }
                }
            },
        }
    }
}

} // verus!
