//! The board store and the services running against it: the status
//! transition engine, the completion detector, the archival service and
//! the board aggregator.
//!
//! The store is the sole holder of board and item records.  Every mutating
//! operation preserves `Store::wf`, whose heart is the highlight
//! invariant: on each board, at most one active item is highlighted.

use vstd::prelude::*;

use crate::models::{Category, Item, NewItem, NewRetro, Retrospective, Status, StoreError};
use crate::models::{decide_next_status, is_active, next_status};
use crate::lemmas::{lemma_filter_take_step, lemma_items_filter_wf, lemma_retros_filter_wf};

verus! {

// ---------------------------------------------------------------------------
// Spec-level views of the record sequences
// ---------------------------------------------------------------------------

/// Some item with identifier `id` is present.
pub open spec fn has_item(s: Seq<Item>, id: u64) -> bool {
    exists|i: int| 0 <= i < s.len() && (#[trigger] s[i]).id == id
}

/// The index of the item with identifier `id` (meaningful when the
/// identifier is present; unique under `items_ordered`).
pub open spec fn item_index_of(s: Seq<Item>, id: u64) -> int {
    choose|i: int| 0 <= i < s.len() && (#[trigger] s[i]).id == id
}

/// Some board with identifier `id` is present.
pub open spec fn has_retro(s: Seq<Retrospective>, id: u64) -> bool {
    exists|i: int| 0 <= i < s.len() && (#[trigger] s[i]).id == id
}

/// The index of the board with identifier `id`.
pub open spec fn retro_index_of(s: Seq<Retrospective>, id: u64) -> int {
    choose|i: int| 0 <= i < s.len() && (#[trigger] s[i]).id == id
}

/// Besides the item at index `i`, some item of the same board is
/// highlighted.
pub open spec fn other_highlighted(s: Seq<Item>, i: int) -> bool {
    exists|j: int|
        0 <= j < s.len() && j != i && (#[trigger] s[j]).retro_id == s[i].retro_id && s[j].status
            == Status::Highlighted
}

/// Every active item of board `rid` is completed (vacuously true when the
/// board has no active items).
pub open spec fn board_resolved(s: Seq<Item>, rid: u64) -> bool {
    forall|i: int|
        0 <= i < s.len() && (#[trigger] s[i]).retro_id == rid && is_active(s[i]) ==> s[i].status
            == Status::Completed
}

/// Number of highlighted items of board `rid` (highlighted items are
/// always active).
pub open spec fn count_highlighted(s: Seq<Item>, rid: u64) -> nat
    decreases s.len(),
{
    if s.len() == 0 {
        0
    } else {
        count_highlighted(s.drop_last(), rid) + if s.last().retro_id == rid && s.last().status
            == Status::Highlighted {
            1nat
        } else {
            0nat
        }
    }
}

/// Number of active items of board `rid`.
pub open spec fn count_active(s: Seq<Item>, rid: u64) -> nat
    decreases s.len(),
{
    if s.len() == 0 {
        0
    } else {
        count_active(s.drop_last(), rid) + if s.last().retro_id == rid && is_active(s.last()) {
            1nat
        } else {
            0nat
        }
    }
}

/// What one toggle does to the item records: the addressed item moves to
/// the status the transition table picks for it; everything else stays.
pub open spec fn toggle_model(s: Seq<Item>, id: u64) -> Seq<Item> {
    if has_item(s, id) {
        let i = item_index_of(s, id);
        s.update(i, Item { status: next_status(s[i].status, other_highlighted(s, i)), ..s[i] })
    } else {
        s
    }
}

/// What archiving a board does to the item records: every item of the
/// board becomes archived; other boards' items stay.
pub open spec fn archive_model(s: Seq<Item>, rid: u64) -> Seq<Item> {
    Seq::new(
        s.len(),
        |i: int|
            if s[i].retro_id == rid {
                Item { status: Status::Archived, ..s[i] }
            } else {
                s[i]
            },
    )
}

/// Items of board `rid` that are active: what a board listing shows.
pub open spec fn active_pred(rid: u64) -> spec_fn(Item) -> bool {
    |it: Item| it.retro_id == rid && is_active(it)
}

/// Active items of board `rid` in category `cat`: one aggregated column.
pub open spec fn cat_pred(rid: u64, cat: Category) -> spec_fn(Item) -> bool {
    |it: Item| it.retro_id == rid && it.category == cat && is_active(it)
}

/// Items that survive the deletion of board `rid`.
pub open spec fn item_survives_pred(rid: u64) -> spec_fn(Item) -> bool {
    |it: Item| it.retro_id != rid
}

/// Boards that survive the deletion of board `rid`.
pub open spec fn retro_survives_pred(rid: u64) -> spec_fn(Retrospective) -> bool {
    |r: Retrospective| r.id != rid
}

// ---------------------------------------------------------------------------
// Well-formedness
// ---------------------------------------------------------------------------

/// Item records are kept in allocation order: identifiers and creation
/// stamps are strictly increasing along the sequence.  In particular both
/// are unique.
pub open spec fn items_ordered(s: Seq<Item>) -> bool {
    forall|i: int, j: int|
        #![trigger s[i], s[j]]
        0 <= i < j < s.len() ==> s[i].id < s[j].id && s[i].created_at < s[j].created_at
}

/// Every item identifier and creation stamp lies below the allocation
/// counter.
pub open spec fn items_bounded(s: Seq<Item>, next_id: u64) -> bool {
    forall|i: int|
        0 <= i < s.len() ==> (#[trigger] s[i]).id < next_id && s[i].created_at < next_id
}

/// The highlight invariant: no two items of one board are both
/// highlighted.  Highlighted items are active, so this bounds the active
/// highlighted items of each board by one.
pub open spec fn highlight_exclusive(s: Seq<Item>) -> bool {
    forall|i: int, j: int|
        #![trigger s[i], s[j]]
        0 <= i < j < s.len() && s[i].retro_id == s[j].retro_id ==> !(s[i].status
            == Status::Highlighted && s[j].status == Status::Highlighted)
}

/// Board records are kept in allocation order.
pub open spec fn retros_ordered(s: Seq<Retrospective>) -> bool {
    forall|i: int, j: int|
        #![trigger s[i], s[j]]
        0 <= i < j < s.len() ==> s[i].id < s[j].id && s[i].created_at < s[j].created_at
}

/// Every board identifier and creation stamp lies below the allocation
/// counter.
pub open spec fn retros_bounded(s: Seq<Retrospective>, next_id: u64) -> bool {
    forall|i: int|
        0 <= i < s.len() ==> (#[trigger] s[i]).id < next_id && s[i].created_at < next_id
}

/// Every item belongs to a board that is present.
pub open spec fn items_owned(retros: Seq<Retrospective>, items: Seq<Item>) -> bool {
    forall|i: int| 0 <= i < items.len() ==> has_retro(retros, (#[trigger] items[i]).retro_id)
}

// ---------------------------------------------------------------------------
// The store
// ---------------------------------------------------------------------------

/// The record storage for boards and items, together with the allocation
/// counter for identifiers and logical creation stamps.
pub struct Store {
    pub retros: Vec<Retrospective>,
    pub items: Vec<Item>,
    pub next_id: u64,
}

/// The three aggregated columns of a board: its active items, split by
/// category, each in creation order.
#[derive(Debug)]
pub struct BoardView {
    pub good_items: Vec<Item>,
    pub bad_items: Vec<Item>,
    pub watch_items: Vec<Item>,
}

/// Result of one toggle: the item as written, and whether its board is now
/// fully completed.
#[derive(Debug)]
pub struct ToggleOutcome {
    pub item: Item,
    pub board_now_fully_completed: bool,
}

impl Store {
    /// Well-formedness: records in allocation order below the counter, the
    /// highlight invariant, and referential integrity of items to boards.
    /// Constructors establish it and every operation preserves it.
    pub open spec fn wf(&self) -> bool {
        &&& items_ordered(self.items@)
        &&& items_bounded(self.items@, self.next_id)
        &&& highlight_exclusive(self.items@)
        &&& retros_ordered(self.retros@)
        &&& retros_bounded(self.retros@, self.next_id)
        &&& items_owned(self.retros@, self.items@)
    }

    /// An empty store.
    pub fn new() -> (r: Store)
        ensures
            r.wf(),
            r.retros@ == Seq::<Retrospective>::empty(),
            r.items@ == Seq::<Item>::empty(),
            r.next_id == 0,
    {
        Store { retros: Vec::new(), items: Vec::new(), next_id: 0 }
    }

    /// Whether the allocation counter still has room; creation requires it.
    pub fn can_allocate(&self) -> (r: bool)
        ensures
            r == (self.next_id < u64::MAX),
    {
        self.next_id < u64::MAX
    }

    /// Looks an item up by identifier.
    pub fn get_item(&self, item_id: u64) -> (r: Result<&Item, StoreError>)
        requires
            self.wf(),
        ensures
            match r {
                Ok(it) => has_item(self.items@, item_id) && *it == self.items@[item_index_of(
                    self.items@,
                    item_id,
                )],
                Err(e) => e == StoreError::NotFound && !has_item(self.items@, item_id),
            },
    {
        match find_item_index(&self.items, item_id) {
            Some(i) => Ok(&self.items[i]),
            None => Err(StoreError::NotFound),
        }
    }

    /// Looks a board up by identifier.
    pub fn get_board(&self, retro_id: u64) -> (r: Result<&Retrospective, StoreError>)
        requires
            self.wf(),
        ensures
            match r {
                Ok(b) => has_retro(self.retros@, retro_id) && *b == self.retros@[retro_index_of(
                    self.retros@,
                    retro_id,
                )],
                Err(e) => e == StoreError::NotFound && !has_retro(self.retros@, retro_id),
            },
    {
        match find_retro_index(&self.retros, retro_id) {
            Some(i) => Ok(&self.retros[i]),
            None => Err(StoreError::NotFound),
        }
    }

    /// Creates a board with the given title; returns its identifier.
    /// The identifier and creation stamp come from the allocation counter.
    pub fn create_retro(&mut self, new: NewRetro) -> (id: u64)
        requires
            old(self).wf(),
            old(self).next_id < u64::MAX,
        ensures
            final(self).wf(),
            id == old(self).next_id,
            final(self).next_id == old(self).next_id + 1,
            final(self).retros@ == old(self).retros@.push(
                Retrospective { id: old(self).next_id, title: new.title, created_at: old(self).next_id },
            ),
            final(self).items@ == old(self).items@,
    {
        let id = self.next_id;
        self.retros.push(Retrospective { id, title: new.title, created_at: id });
        self.next_id = self.next_id + 1;
        proof {
            let old_rs = old(self).retros@;
            let rs = self.retros@;
            assert forall|i: int, j: int|
                #![trigger rs[i], rs[j]]
                0 <= i < j < rs.len() implies rs[i].id < rs[j].id && rs[i].created_at
                < rs[j].created_at by {
                if j < old_rs.len() {
                    assert(rs[i] == old_rs[i] && rs[j] == old_rs[j]);
                } else {
                    assert(rs[i] == old_rs[i]);
                }
            }
            assert forall|i: int| 0 <= i < self.items@.len() implies has_retro(
                rs,
                (#[trigger] self.items@[i]).retro_id,
            ) by {
                let k = choose|k: int|
                    0 <= k < old_rs.len() && (#[trigger] old_rs[k]).id == self.items@[i].retro_id;
                assert(rs[k] == old_rs[k]);
            }
        }
        id
    }

    /// All boards, newest first: creation stamps descend along the
    /// result.
    pub fn list_retros(&self) -> (r: Vec<Retrospective>)
        requires
            self.wf(),
        ensures
            r@ == self.retros@.reverse(),
            forall|k1: int, k2: int|
                #![trigger r@[k1], r@[k2]]
                0 <= k1 < k2 < r@.len() ==> r@[k1].created_at > r@[k2].created_at,
    {
        let mut out: Vec<Retrospective> = Vec::new();
        let mut i: usize = self.retros.len();
        while i > 0
            invariant
                i <= self.retros@.len(),
                out@.len() == self.retros@.len() - i,
                forall|k: int|
                    0 <= k < out@.len() ==> out@[k] == self.retros@[self.retros@.len() - 1 - k],
            decreases i,
        {
            i = i - 1;
            out.push(copy_retro(&self.retros[i]));
        }
        proof {
            assert(out@ =~= self.retros@.reverse());
        }
        out
    }

    /// Adds an item to a board with initial status `Created`; fails with
    /// `NotFound` when the board does not exist.  Returns the item as
    /// stored.
    pub fn add_item(&mut self, retro_id: u64, category: Category, new: NewItem) -> (r: Result<
        Item,
        StoreError,
    >)
        requires
            old(self).wf(),
            old(self).next_id < u64::MAX,
        ensures
            final(self).wf(),
            final(self).retros@ == old(self).retros@,
            match r {
                Ok(it) => {
                    &&& has_retro(old(self).retros@, retro_id)
                    &&& it == (Item {
                        id: old(self).next_id,
                        retro_id,
                        text: new.text,
                        category,
                        created_at: old(self).next_id,
                        status: Status::Created,
                    })
                    &&& final(self).items@ == old(self).items@.push(it)
                    &&& final(self).next_id == old(self).next_id + 1
                },
                Err(e) => {
                    &&& e == StoreError::NotFound
                    &&& !has_retro(old(self).retros@, retro_id)
                    &&& final(self).items@ == old(self).items@
                    &&& final(self).next_id == old(self).next_id
                },
            },
    {
        match self.get_board(retro_id) {
            Err(e) => Err(e),
            Ok(_) => {
                let id = self.next_id;
                let item = Item {
                    id,
                    retro_id,
                    text: new.text,
                    category,
                    created_at: id,
                    status: Status::Created,
                };
                let stored = copy_item(&item);
                self.items.push(item);
                self.next_id = self.next_id + 1;
                proof {
                    let old_is = old(self).items@;
                    let is = self.items@;
                    assert forall|i: int, j: int|
                        #![trigger is[i], is[j]]
                        0 <= i < j < is.len() implies is[i].id < is[j].id && is[i].created_at
                        < is[j].created_at by {
                        if j < old_is.len() {
                            assert(is[i] == old_is[i] && is[j] == old_is[j]);
                        } else {
                            assert(is[i] == old_is[i]);
                        }
                    }
                    assert forall|i: int, j: int|
                        #![trigger is[i], is[j]]
                        0 <= i < j < is.len() && is[i].retro_id == is[j].retro_id implies !(is[i].status
                        == Status::Highlighted && is[j].status == Status::Highlighted) by {
                        if j < old_is.len() {
                            assert(is[i] == old_is[i] && is[j] == old_is[j]);
                        } else {
                            assert(is[i] == old_is[i]);
                            assert(is[j].status == Status::Created);
                        }
                    }
                    assert forall|i: int| 0 <= i < is.len() implies has_retro(
                        self.retros@,
                        (#[trigger] is[i]).retro_id,
                    ) by {
                        if i < old_is.len() {
                            assert(is[i] == old_is[i]);
                            assert(has_retro(self.retros@, old_is[i].retro_id));
                        } else {
                            assert(is[i].retro_id == retro_id);
                        }
                    }
                }
                Ok(stored)
            },
        }
    }

    /// The compare-and-update primitive of the store: writes `new_status`
    /// to the item only if the item still has status `expected`, and — when
    /// the write would take the highlight — only if no other item of the
    /// board holds it.  One isolated step; on `Conflict` nothing changes.
    /// Invariant-violating writes are rejected here, by construction.
    pub fn cas_update_status(&mut self, item_id: u64, expected: Status, new_status: Status) -> (r:
        Result<Item, StoreError>)
        requires
            old(self).wf(),
        ensures
            final(self).wf(),
            final(self).retros@ == old(self).retros@,
            final(self).next_id == old(self).next_id,
            match r {
                Ok(it) => {
                    let s = old(self).items@;
                    let i = item_index_of(s, item_id);
                    &&& has_item(s, item_id)
                    &&& s[i].status == expected
                    &&& (new_status == Status::Highlighted ==> !other_highlighted(s, i))
                    &&& it == (Item { status: new_status, ..s[i] })
                    &&& final(self).items@ == s.update(i, it)
                },
                Err(StoreError::NotFound) => !has_item(old(self).items@, item_id)
                    && final(self).items@ == old(self).items@,
                Err(StoreError::Conflict) => {
                    let s = old(self).items@;
                    let i = item_index_of(s, item_id);
                    &&& has_item(s, item_id)
                    &&& (s[i].status != expected || (new_status == Status::Highlighted
                        && other_highlighted(s, i)))
                    &&& final(self).items@ == s
                },
            },
    {
        let idx = match find_item_index(&self.items, item_id) {
            None => {
                return Err(StoreError::NotFound);
            },
            Some(i) => i,
        };
        if !(self.items[idx].status == expected) {
            return Err(StoreError::Conflict);
        }
        if new_status == Status::Highlighted && has_other_highlighted(&self.items, idx) {
            return Err(StoreError::Conflict);
        }
        let written = Item {
            id: self.items[idx].id,
            retro_id: self.items[idx].retro_id,
            text: self.items[idx].text.clone(),
            category: self.items[idx].category,
            created_at: self.items[idx].created_at,
            status: new_status,
        };
        let stored = copy_item(&written);
        self.items[idx] = written;
        proof {
            let s = old(self).items@;
            let is = self.items@;
            assert(is == s.update(idx as int, stored));
            assert forall|i: int, j: int|
                #![trigger is[i], is[j]]
                0 <= i < j < is.len() implies is[i].id < is[j].id && is[i].created_at
                < is[j].created_at by {
                assert(s[i].id == is[i].id && s[i].created_at == is[i].created_at);
                assert(s[j].id == is[j].id && s[j].created_at == is[j].created_at);
            }
            assert forall|i: int|
                0 <= i < is.len() implies (#[trigger] is[i]).id < self.next_id && is[i].created_at
                < self.next_id by {
                assert(s[i].id == is[i].id && s[i].created_at == is[i].created_at);
            }
            assert forall|i: int, j: int|
                #![trigger is[i], is[j]]
                0 <= i < j < is.len() && is[i].retro_id == is[j].retro_id implies !(is[i].status
                == Status::Highlighted && is[j].status == Status::Highlighted) by {
                if i != idx as int && j != idx as int {
                    assert(is[i] == s[i] && is[j] == s[j]);
                } else if new_status == Status::Highlighted {
                    // The guard ruled out any other highlighted item of the board.
                    let o = if i == idx as int {
                        j
                    } else {
                        i
                    };
                    assert(is[o] == s[o]);
                    assert(s[o].retro_id == s[idx as int].retro_id);
                    assert(!other_highlighted(s, idx as int));
                    assert(!(s[o].status == Status::Highlighted));
                } else {
                    let o = if i == idx as int {
                        j
                    } else {
                        i
                    };
                    assert(is[o] == s[o]);
                    assert(s[o].retro_id == s[idx as int].retro_id);
                }
            }
            assert forall|i: int| 0 <= i < is.len() implies has_retro(
                self.retros@,
                (#[trigger] is[i]).retro_id,
            ) by {
                assert(is[i].retro_id == s[i].retro_id);
                assert(has_retro(self.retros@, s[i].retro_id));
            }
        }
        Ok(stored)
    }

    /// The completion detector: true iff every active item of the board is
    /// completed; a board with no active items is vacuously resolved.
    pub fn is_board_fully_resolved(&self, retro_id: u64) -> (r: bool)
        ensures
            r == board_resolved(self.items@, retro_id),
    {
        let n = self.items.len();
        let mut i: usize = 0;
        while i < n
            invariant
                n == self.items@.len(),
                i <= n,
                forall|j: int|
                    0 <= j < i && (#[trigger] self.items@[j]).retro_id == retro_id && is_active(
                        self.items@[j],
                    ) ==> self.items@[j].status == Status::Completed,
            decreases n - i,
        {
            let it = &self.items[i];
            if it.retro_id == retro_id && !(it.status == Status::Archived) && !(it.status
                == Status::Completed) {
                proof {
                    assert(is_active(self.items@[i as int]));
                }
                return false;
            }
            i = i + 1;
        }
        true
    }

    /// The active items of a board, in creation order: what a board
    /// listing works from.
    pub fn list_active_items(&self, retro_id: u64) -> (r: Vec<Item>)
        requires
            self.wf(),
        ensures
            r@ == self.items@.filter(active_pred(retro_id)),
            forall|k1: int, k2: int|
                #![trigger r@[k1], r@[k2]]
                0 <= k1 < k2 < r@.len() ==> r@[k1].created_at < r@[k2].created_at,
            forall|k: int|
                0 <= k < r@.len() ==> (#[trigger] r@[k]).retro_id == retro_id && is_active(r@[k]),
    {
        let n = self.items.len();
        let mut out: Vec<Item> = Vec::new();
        let mut i: usize = 0;
        proof {
            reveal(Seq::filter);
            assert(self.items@.take(0).filter(active_pred(retro_id)) =~= Seq::<Item>::empty());
        }
        while i < n
            invariant
                self.wf(),
                n == self.items@.len(),
                i <= n,
                out@ == self.items@.take(i as int).filter(active_pred(retro_id)),
            decreases n - i,
        {
            proof {
                lemma_filter_take_step(self.items@, active_pred(retro_id), i as int);
            }
            let it = &self.items[i];
            if it.retro_id == retro_id && !(it.status == Status::Archived) {
                out.push(copy_item(it));
            }
            i = i + 1;
        }
        proof {
            assert(self.items@.take(n as int) =~= self.items@);
            lemma_items_filter_wf(self.items@, active_pred(retro_id));
            assert forall|k: int| 0 <= k < out@.len() implies (#[trigger] out@[k]).retro_id
                == retro_id && is_active(out@[k]) by {
                self.items@.lemma_filter_pred(active_pred(retro_id), k);
            }
        }
        out
    }

    /// The active items of a board in one category, in creation order: one
    /// aggregated column.
    fn items_in_category(&self, retro_id: u64, cat: Category) -> (r: Vec<Item>)
        requires
            self.wf(),
        ensures
            r@ == self.items@.filter(cat_pred(retro_id, cat)),
            forall|k1: int, k2: int|
                #![trigger r@[k1], r@[k2]]
                0 <= k1 < k2 < r@.len() ==> r@[k1].created_at < r@[k2].created_at,
            forall|k: int|
                0 <= k < r@.len() ==> (#[trigger] r@[k]).retro_id == retro_id && r@[k].category
                    == cat && is_active(r@[k]),
    {
        let n = self.items.len();
        let mut out: Vec<Item> = Vec::new();
        let mut i: usize = 0;
        proof {
            reveal(Seq::filter);
            assert(self.items@.take(0).filter(cat_pred(retro_id, cat)) =~= Seq::<Item>::empty());
        }
        while i < n
            invariant
                self.wf(),
                n == self.items@.len(),
                i <= n,
                out@ == self.items@.take(i as int).filter(cat_pred(retro_id, cat)),
            decreases n - i,
        {
            proof {
                lemma_filter_take_step(self.items@, cat_pred(retro_id, cat), i as int);
            }
            let it = &self.items[i];
            if it.retro_id == retro_id && it.category == cat && !(it.status == Status::Archived) {
                out.push(copy_item(it));
            }
            i = i + 1;
        }
        proof {
            assert(self.items@.take(n as int) =~= self.items@);
            lemma_items_filter_wf(self.items@, cat_pred(retro_id, cat));
            assert forall|k: int| 0 <= k < out@.len() implies (#[trigger] out@[k]).retro_id
                == retro_id && out@[k].category == cat && is_active(out@[k]) by {
                self.items@.lemma_filter_pred(cat_pred(retro_id, cat), k);
            }
        }
        out
    }

    /// The board aggregator: the board's active items split into the three
    /// category columns, each in creation order; archived items never
    /// appear.  A pure read; fails with `NotFound` when the board does not
    /// exist.
    pub fn board_view(&self, retro_id: u64) -> (r: Result<BoardView, StoreError>)
        requires
            self.wf(),
        ensures
            match r {
                Ok(v) => {
                    &&& has_retro(self.retros@, retro_id)
                    &&& v.good_items@ == self.items@.filter(cat_pred(retro_id, Category::Good))
                    &&& v.bad_items@ == self.items@.filter(cat_pred(retro_id, Category::Bad))
                    &&& v.watch_items@ == self.items@.filter(cat_pred(retro_id, Category::Watch))
                    &&& forall|k1: int, k2: int|
                        #![trigger v.good_items@[k1], v.good_items@[k2]]
                        0 <= k1 < k2 < v.good_items@.len() ==> v.good_items@[k1].created_at
                            < v.good_items@[k2].created_at
                    &&& forall|k1: int, k2: int|
                        #![trigger v.bad_items@[k1], v.bad_items@[k2]]
                        0 <= k1 < k2 < v.bad_items@.len() ==> v.bad_items@[k1].created_at
                            < v.bad_items@[k2].created_at
                    &&& forall|k1: int, k2: int|
                        #![trigger v.watch_items@[k1], v.watch_items@[k2]]
                        0 <= k1 < k2 < v.watch_items@.len() ==> v.watch_items@[k1].created_at
                            < v.watch_items@[k2].created_at
                },
                Err(e) => e == StoreError::NotFound && !has_retro(self.retros@, retro_id),
            },
    {
        match find_retro_index(&self.retros, retro_id) {
            None => Err(StoreError::NotFound),
            Some(_) => Ok(
                BoardView {
                    good_items: self.items_in_category(retro_id, Category::Good),
                    bad_items: self.items_in_category(retro_id, Category::Bad),
                    watch_items: self.items_in_category(retro_id, Category::Watch),
                },
            ),
        }
    }

    /// One pass of the archival service over the records: every item of
    /// the board becomes archived, in one step with no visible
    /// intermediate state.  Returns how many items were still active.
    pub fn archive_all(&mut self, retro_id: u64) -> (count: usize)
        requires
            old(self).wf(),
        ensures
            final(self).wf(),
            final(self).retros@ == old(self).retros@,
            final(self).next_id == old(self).next_id,
            final(self).items@ == archive_model(old(self).items@, retro_id),
            count == count_active(old(self).items@, retro_id),
    {
        let n = self.items.len();
        let mut count: usize = 0;
        let mut i: usize = 0;
        while i < n
            invariant
                old(self).wf(),
                n == self.items@.len(),
                n == old(self).items@.len(),
                i <= n,
                self.retros@ == old(self).retros@,
                self.next_id == old(self).next_id,
                forall|j: int|
                    #![trigger self.items@[j]]
                    0 <= j < i ==> self.items@[j] == (if old(self).items@[j].retro_id == retro_id {
                        Item { status: Status::Archived, ..old(self).items@[j] }
                    } else {
                        old(self).items@[j]
                    }),
                forall|j: int|
                    #![trigger self.items@[j]]
                    i <= j < n ==> self.items@[j] == old(self).items@[j],
                count <= i,
                count == count_active(old(self).items@.take(i as int), retro_id),
            decreases n - i,
        {
            proof {
                let s = old(self).items@;
                assert(s.take(i + 1).drop_last() =~= s.take(i as int));
                assert(s.take(i + 1).last() == s[i as int]);
            }
            if self.items[i].retro_id == retro_id {
                if !(self.items[i].status == Status::Archived) {
                    count = count + 1;
                }
                let mut updated = copy_item(&self.items[i]);
                updated.status = Status::Archived;
                self.items[i] = updated;
            }
            i = i + 1;
        }
        proof {
            let s = old(self).items@;
            let is = self.items@;
            assert(is =~= archive_model(s, retro_id));
            assert(s.take(n as int) =~= s);
            assert forall|a: int, b: int|
                #![trigger is[a], is[b]]
                0 <= a < b < is.len() implies is[a].id < is[b].id && is[a].created_at
                < is[b].created_at by {
                assert(is[a].id == s[a].id && is[a].created_at == s[a].created_at);
                assert(is[b].id == s[b].id && is[b].created_at == s[b].created_at);
            }
            assert forall|a: int|
                0 <= a < is.len() implies (#[trigger] is[a]).id < self.next_id && is[a].created_at
                < self.next_id by {
                assert(is[a].id == s[a].id && is[a].created_at == s[a].created_at);
            }
            assert forall|a: int, b: int|
                #![trigger is[a], is[b]]
                0 <= a < b < is.len() && is[a].retro_id == is[b].retro_id implies !(is[a].status
                == Status::Highlighted && is[b].status == Status::Highlighted) by {
                if s[a].retro_id == retro_id || s[b].retro_id == retro_id {
                } else {
                    assert(is[a] == s[a] && is[b] == s[b]);
                }
            }
            assert forall|a: int| 0 <= a < is.len() implies has_retro(
                self.retros@,
                (#[trigger] is[a]).retro_id,
            ) by {
                assert(is[a].retro_id == s[a].retro_id);
                assert(has_retro(self.retros@, s[a].retro_id));
            }
        }
        count
    }

    /// The archival service: archives every active item of the board and
    /// reports how many there were.  Idempotent — archiving an already
    /// archived board succeeds and archives zero items.  Fails with
    /// `NotFound` when the board does not exist.
    pub fn archive_retro(&mut self, retro_id: u64) -> (r: Result<usize, StoreError>)
        requires
            old(self).wf(),
        ensures
            final(self).wf(),
            final(self).retros@ == old(self).retros@,
            final(self).next_id == old(self).next_id,
            match r {
                Ok(count) => {
                    &&& has_retro(old(self).retros@, retro_id)
                    &&& final(self).items@ == archive_model(old(self).items@, retro_id)
                    &&& count == count_active(old(self).items@, retro_id)
                },
                Err(e) => {
                    &&& e == StoreError::NotFound
                    &&& !has_retro(old(self).retros@, retro_id)
                    &&& final(self).items@ == old(self).items@
                },
            },
    {
        match find_retro_index(&self.retros, retro_id) {
            None => Err(StoreError::NotFound),
            Some(_) => Ok(self.archive_all(retro_id)),
        }
    }

    /// Deletes a board outright; the deletion cascades to all its items,
    /// in the same step.  Deleting an absent board changes nothing, as in
    /// the store's idiom a delete is a filter.
    pub fn delete_retro(&mut self, retro_id: u64)
        requires
            old(self).wf(),
        ensures
            final(self).wf(),
            final(self).next_id == old(self).next_id,
            final(self).retros@ == old(self).retros@.filter(retro_survives_pred(retro_id)),
            final(self).items@ == old(self).items@.filter(item_survives_pred(retro_id)),
    {
        let n = self.items.len();
        let mut kept_items: Vec<Item> = Vec::new();
        let mut i: usize = 0;
        proof {
            reveal(Seq::filter);
            assert(self.items@.take(0).filter(item_survives_pred(retro_id)) =~= Seq::<
                Item,
            >::empty());
        }
        while i < n
            invariant
                n == self.items@.len(),
                self.items@ == old(self).items@,
                i <= n,
                kept_items@ == self.items@.take(i as int).filter(item_survives_pred(retro_id)),
            decreases n - i,
        {
            proof {
                lemma_filter_take_step(self.items@, item_survives_pred(retro_id), i as int);
            }
            if !(self.items[i].retro_id == retro_id) {
                kept_items.push(copy_item(&self.items[i]));
            }
            i = i + 1;
        }
        let m = self.retros.len();
        let mut kept_retros: Vec<Retrospective> = Vec::new();
        let mut j: usize = 0;
        proof {
            reveal(Seq::filter);
            assert(self.retros@.take(0).filter(retro_survives_pred(retro_id)) =~= Seq::<
                Retrospective,
            >::empty());
        }
        while j < m
            invariant
                m == self.retros@.len(),
                self.retros@ == old(self).retros@,
                j <= m,
                kept_retros@ == self.retros@.take(j as int).filter(retro_survives_pred(retro_id)),
            decreases m - j,
        {
            proof {
                lemma_filter_take_step(self.retros@, retro_survives_pred(retro_id), j as int);
            }
            if !(self.retros[j].id == retro_id) {
                kept_retros.push(copy_retro(&self.retros[j]));
            }
            j = j + 1;
        }
        self.items = kept_items;
        self.retros = kept_retros;
        proof {
            let s = old(self).items@;
            let rs = old(self).retros@;
            assert(s.take(n as int) =~= s);
            assert(rs.take(m as int) =~= rs);
            lemma_items_filter_wf(s, item_survives_pred(retro_id));
            lemma_retros_filter_wf(rs, retro_survives_pred(retro_id));
            let fi = self.items@;
            let fr = self.retros@;
            assert forall|a: int|
                0 <= a < fi.len() implies (#[trigger] fi[a]).id < self.next_id && fi[a].created_at
                < self.next_id by {
                assert(s.contains(fi[a]));
                let w = choose|w: int| 0 <= w < s.len() && s[w] == fi[a];
                assert(s[w].id < self.next_id && s[w].created_at < self.next_id);
            }
            assert forall|a: int|
                0 <= a < fr.len() implies (#[trigger] fr[a]).id < self.next_id && fr[a].created_at
                < self.next_id by {
                assert(rs.contains(fr[a]));
                let w = choose|w: int| 0 <= w < rs.len() && rs[w] == fr[a];
                assert(rs[w].id < self.next_id && rs[w].created_at < self.next_id);
            }
            assert forall|a: int| 0 <= a < fi.len() implies has_retro(
                fr,
                (#[trigger] fi[a]).retro_id,
            ) by {
                s.lemma_filter_pred(item_survives_pred(retro_id), a);
                assert(fi[a].retro_id != retro_id);
                assert(s.contains(fi[a]));
                let w = choose|w: int| 0 <= w < s.len() && s[w] == fi[a];
                assert(has_retro(rs, s[w].retro_id));
                let k = choose|k: int| 0 <= k < rs.len() && (#[trigger] rs[k]).id == s[w].retro_id;
                assert(retro_survives_pred(retro_id)(rs[k]));
                rs.lemma_filter_contains(retro_survives_pred(retro_id), k);
                assert(fr.contains(rs[k]));
                let q = choose|q: int| 0 <= q < fr.len() && fr[q] == rs[k];
                assert(fr[q].id == fi[a].retro_id);
            }
        }
    }

    /// The status transition engine.  Fetches the item, picks the next
    /// status from the transition table — `Created` takes the highlight
    /// only while no other active item of the board holds it — and writes
    /// it through `cas_update_status` in the same atomic unit, so the
    /// conditional write is proved to succeed and no clearing of a rival
    /// highlight is ever needed.  Returns the item as written and whether
    /// its board is now fully completed.
    pub fn toggle_status(&mut self, item_id: u64) -> (r: Result<ToggleOutcome, StoreError>)
        requires
            old(self).wf(),
        ensures
            final(self).wf(),
            final(self).retros@ == old(self).retros@,
            final(self).next_id == old(self).next_id,
            final(self).items@ == toggle_model(old(self).items@, item_id),
            match r {
                Ok(out) => {
                    let s = old(self).items@;
                    let i = item_index_of(s, item_id);
                    &&& has_item(s, item_id)
                    &&& out.item == (Item {
                        status: next_status(s[i].status, other_highlighted(s, i)),
                        ..s[i]
                    })
                    &&& final(self).items@ == s.update(i, out.item)
                    &&& out.board_now_fully_completed == board_resolved(
                        final(self).items@,
                        s[i].retro_id,
                    )
                },
                Err(e) => e == StoreError::NotFound && !has_item(old(self).items@, item_id),
            },
    {
        let idx = match find_item_index(&self.items, item_id) {
            None => {
                return Err(StoreError::NotFound);
            },
            Some(i) => i,
        };
        let cur = self.items[idx].status;
        let other = has_other_highlighted(&self.items, idx);
        let target = decide_next_status(cur, other);
        let rid = self.items[idx].retro_id;
        match self.cas_update_status(item_id, cur, target) {
            Ok(written) => {
                let done = self.is_board_fully_resolved(rid);
                Ok(ToggleOutcome { item: written, board_now_fully_completed: done })
            },
            Err(e) => {
                proof {
                    // The conditional write presupposed exactly the state read
                    // within this same atomic unit, so it cannot have failed.
                    assert(false);
                }
                Err(e)
            },
        }
    }
}

/// Position of the item with the given identifier, if any.  Under
/// `items_ordered` identifiers are unique, so the position is the one
/// `item_index_of` denotes.
fn find_item_index(items: &Vec<Item>, item_id: u64) -> (r: Option<usize>)
    requires
        items_ordered(items@),
    ensures
        match r {
            Some(i) => i < items@.len() && items@[i as int].id == item_id && has_item(
                items@,
                item_id,
            ) && item_index_of(items@, item_id) == i as int,
            None => !has_item(items@, item_id),
        },
{
    let n = items.len();
    let mut i: usize = 0;
    while i < n
        invariant
            items_ordered(items@),
            n == items@.len(),
            i <= n,
            forall|j: int| 0 <= j < i ==> (#[trigger] items@[j]).id != item_id,
        decreases n - i,
    {
        if items[i].id == item_id {
            proof {
                let s = items@;
                assert(s[i as int].id == item_id);
                let k = item_index_of(s, item_id);
                assert(0 <= k < s.len() && s[k].id == item_id);
                assert(s[k].id == s[i as int].id);
            }
            return Some(i);
        }
        i = i + 1;
    }
    None
}

/// Position of the board with the given identifier, if any.
fn find_retro_index(retros: &Vec<Retrospective>, retro_id: u64) -> (r: Option<usize>)
    requires
        retros_ordered(retros@),
    ensures
        match r {
            Some(i) => i < retros@.len() && retros@[i as int].id == retro_id && has_retro(
                retros@,
                retro_id,
            ) && retro_index_of(retros@, retro_id) == i as int,
            None => !has_retro(retros@, retro_id),
        },
{
    let n = retros.len();
    let mut i: usize = 0;
    while i < n
        invariant
            retros_ordered(retros@),
            n == retros@.len(),
            i <= n,
            forall|j: int| 0 <= j < i ==> (#[trigger] retros@[j]).id != retro_id,
        decreases n - i,
    {
        if retros[i].id == retro_id {
            proof {
                let s = retros@;
                assert(s[i as int].id == retro_id);
                let k = retro_index_of(s, retro_id);
                assert(0 <= k < s.len() && s[k].id == retro_id);
                assert(s[k].id == s[i as int].id);
            }
            return Some(i);
        }
        i = i + 1;
    }
    None
}

/// Whether some item other than the one at `idx` is highlighted on the
/// same board.
fn has_other_highlighted(items: &Vec<Item>, idx: usize) -> (r: bool)
    requires
        idx < items@.len(),
    ensures
        r == other_highlighted(items@, idx as int),
{
    let rid = items[idx].retro_id;
    let n = items.len();
    let mut j: usize = 0;
    while j < n
        invariant
            idx < items@.len(),
            n == items@.len(),
            j <= n,
            rid == items@[idx as int].retro_id,
            forall|k: int|
                0 <= k < j ==> !(k != idx as int && (#[trigger] items@[k]).retro_id == rid
                    && items@[k].status == Status::Highlighted),
        decreases n - j,
    {
        if j != idx && items[j].retro_id == rid && items[j].status == Status::Highlighted {
            proof {
                assert(items@[j as int].retro_id == items@[idx as int].retro_id);
            }
            return true;
        }
        j = j + 1;
    }
    false
}

/// Field-for-field copy of a board record.
fn copy_retro(r: &Retrospective) -> (c: Retrospective)
    ensures
        c == *r,
{
    Retrospective { id: r.id, title: r.title.clone(), created_at: r.created_at }
}

/// Field-for-field copy of an item record.
fn copy_item(it: &Item) -> (c: Item)
    ensures
        c == *it,
{
    Item {
        id: it.id,
        retro_id: it.retro_id,
        text: it.text.clone(),
        category: it.category,
        created_at: it.created_at,
        status: it.status,
    }
}

} // verus!
