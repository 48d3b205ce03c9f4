//! Manual ordering of notes.

use crate::ident::{is_safe_id, safe_id};
use crate::model::{NoteView, StoreError};
use crate::notes::{lemma_update_note_wf, with_order};
use crate::store::Store;
use vstd::prelude::*;

verus! {

/// The pairs of `v` as mathematical values.
pub open spec fn pair_views(v: Seq<(String, i64)>) -> Seq<(Seq<char>, i64)> {
    Seq::new(v.len(), |i: int| (v[i].0@, v[i].1))
}

/// Every id of `pairs` is safe.
pub open spec fn all_safe(pairs: Seq<(Seq<char>, i64)>) -> bool {
    forall|i: int| 0 <= i < pairs.len() ==> safe_id((#[trigger] pairs[i]).0)
}

/// `ns` after the sort orders of `pairs` were set one after the other. A
/// pair whose id no note has changes nothing.
pub open spec fn reordered(ns: Seq<NoteView>, pairs: Seq<(Seq<char>, i64)>) -> Seq<NoteView>
    decreases pairs.len(),
{
    if pairs.len() == 0 {
        ns
    } else {
        with_order(reordered(ns, pairs.drop_last()), pairs.last().0, pairs.last().1)
    }
}

/// Whether every id of the batch is safe.
pub fn all_ids_safe(pairs: &Vec<(String, i64)>) -> (r: bool)
    ensures
        r == all_safe(pair_views(pairs@)),
{
    let ghost pv = pair_views(pairs@);
    let mut i: usize = 0;
    while i < pairs.len()
        invariant
            i <= pairs.len(),
            pv == pair_views(pairs@),
            forall|j: int| 0 <= j < i ==> safe_id((#[trigger] pv[j]).0),
        decreases pairs.len() - i,
    {
        if !is_safe_id(pairs[i].0.as_str()) {
            assert(!safe_id(pv[i as int].0));
            return false;
        }
        i += 1;
    }
    true
}

impl Store {
    /// Sets the sort order of the note with the id, if there is one.
    pub fn set_order(&mut self, id: &str, order: i64)
        requires
            old(self).wf(),
        ensures
            final(self).wf(),
            final(self)@.folders == old(self)@.folders,
            final(self)@.notes == with_order(old(self)@.notes, id@, order),
    {
        match self.find_note(id) {
            Some(i) => {
                assert(self@.notes[i as int] == self.notes@[i as int]@);
                proof {
                    let ns = self@.notes;
                    lemma_update_note_wf(
                        self@,
                        i as int,
                        NoteView { sort_order: order, ..ns[i as int] },
                    );
                }
                self.notes[i].sort_order = order;
                assert(self@.notes =~= with_order(old(self)@.notes, id@, order));
            },
            None => {},
        }
    }

    /// Sets the sort orders of a batch of notes, in the order of the batch.
    ///
    /// Every id of the batch is looked at before any note is changed: one
    /// id that is not safe turns the whole batch down and leaves the store
    /// as it was.
    pub fn reorder(&mut self, pairs: &Vec<(String, i64)>) -> (r: Result<(), StoreError>)
        requires
            old(self).wf(),
        ensures
            final(self).wf(),
            final(self)@.folders == old(self)@.folders,
            if all_safe(pair_views(pairs@)) {
                r is Ok && final(self)@.notes == reordered(old(self)@.notes, pair_views(pairs@))
            } else {
                r == Err::<(), StoreError>(StoreError::InvalidNoteId) && final(self)@ == old(self)@
            },
    {
        let ghost pv = pair_views(pairs@);
        let mut i: usize = 0;
        while i < pairs.len()
            invariant
                i <= pairs.len(),
                pv == pair_views(pairs@),
                self.wf(),
                self@ == old(self)@,
                forall|j: int| 0 <= j < i ==> safe_id((#[trigger] pv[j]).0),
            decreases pairs.len() - i,
        {
            if !is_safe_id(pairs[i].0.as_str()) {
                assert(!safe_id(pv[i as int].0));
                return Err(StoreError::InvalidNoteId);
            }
            i += 1;
        }
        i = 0;
        assert(pv.take(0).len() == 0);
        while i < pairs.len()
            invariant
                i <= pairs.len(),
                pv == pair_views(pairs@),
                self.wf(),
                self@.folders == old(self)@.folders,
                self@.notes == reordered(old(self)@.notes, pv.take(i as int)),
            decreases pairs.len() - i,
        {
            proof {
                let head = pv.take(i + 1);
                assert(head.drop_last() =~= pv.take(i as int));
                assert(head.last() == pv[i as int]);
            }
            self.set_order(pairs[i].0.as_str(), pairs[i].1);
            i += 1;
        }
        assert(pv.take(i as int) =~= pv);
        Ok(())
    }
}

} // verus!
