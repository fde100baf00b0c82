//! Proved board-level facts: consequences of the store's well-formedness
//! and of the models of its operations.

use vstd::prelude::*;

use crate::models::{is_active, Category, Item, Retrospective, Status};
use crate::store::{
    archive_model, board_resolved, cat_pred, count_active, count_highlighted, has_item,
    highlight_exclusive, item_index_of, items_ordered, other_highlighted, retros_ordered,
    toggle_model, Store,
};

verus! {

// ---------------------------------------------------------------------------
// Facts about filtered sequences, used to carry the store's ordering and
// exclusivity invariants through listings and deletions.
// ---------------------------------------------------------------------------

/// Filtering one more element: the filtered prefix grows by `s[i]`
/// exactly when the predicate accepts it.
pub proof fn lemma_filter_take_step<T>(s: Seq<T>, pred: spec_fn(T) -> bool, i: int)
    requires
        0 <= i < s.len(),
    ensures
        s.take(i + 1).filter(pred) == if pred(s[i]) {
            s.take(i).filter(pred).push(s[i])
        } else {
            s.take(i).filter(pred)
        },
{
    reveal(Seq::filter);
    assert(s.take(i + 1).drop_last() =~= s.take(i));
    assert(s.take(i + 1).last() == s[i]);
}

/// A filter keeps every ordered-pair relation that held on the whole
/// sequence, and takes its elements from it.
pub proof fn lemma_filter_keeps_ordered_pairs<T>(
    s: Seq<T>,
    pred: spec_fn(T) -> bool,
    rel: spec_fn(T, T) -> bool,
)
    requires
        forall|i: int, j: int| #![trigger s[i], s[j]] 0 <= i < j < s.len() ==> rel(s[i], s[j]),
    ensures
        forall|k: int| 0 <= k < s.filter(pred).len() ==> s.contains(#[trigger] s.filter(pred)[k]),
        forall|k1: int, k2: int|
            #![trigger s.filter(pred)[k1], s.filter(pred)[k2]]
            0 <= k1 < k2 < s.filter(pred).len() ==> rel(s.filter(pred)[k1], s.filter(pred)[k2]),
    decreases s.len(),
{
    reveal(Seq::filter);
    if s.len() > 0 {
        let d = s.drop_last();
        let df = d.filter(pred);
        let f = s.filter(pred);
        assert forall|i: int, j: int|
            #![trigger d[i], d[j]]
            0 <= i < j < d.len() implies rel(d[i], d[j]) by {
            assert(d[i] == s[i] && d[j] == s[j]);
        }
        lemma_filter_keeps_ordered_pairs(d, pred, rel);
        assert forall|k: int| 0 <= k < f.len() implies s.contains(#[trigger] f[k]) by {
            if k < df.len() {
                assert(f[k] == df[k]);
                assert(d.contains(df[k]));
                let i = choose|i: int| 0 <= i < d.len() && d[i] == df[k];
                assert(s[i] == d[i]);
            } else {
                assert(f[k] == s[s.len() - 1]);
            }
        }
        assert forall|k1: int, k2: int|
            #![trigger f[k1], f[k2]]
            0 <= k1 < k2 < f.len() implies rel(f[k1], f[k2]) by {
            if k2 < df.len() {
                assert(f[k1] == df[k1] && f[k2] == df[k2]);
            } else {
                assert(k2 == df.len() && pred(s.last()));
                assert(f[k2] == s[s.len() - 1]);
                assert(f[k1] == df[k1]);
                assert(d.contains(df[k1]));
                let i = choose|i: int| 0 <= i < d.len() && d[i] == df[k1];
                assert(d[i] == s[i]);
                assert(rel(s[i], s[s.len() - 1]));
            }
        }
    }
}

/// A filter whose predicate rejects every element yields nothing.
pub proof fn lemma_filter_none<T>(s: Seq<T>, pred: spec_fn(T) -> bool)
    requires
        forall|i: int| 0 <= i < s.len() ==> !pred(#[trigger] s[i]),
    ensures
        s.filter(pred) == Seq::<T>::empty(),
    decreases s.len(),
{
    reveal(Seq::filter);
    if s.len() > 0 {
        let d = s.drop_last();
        assert forall|i: int| 0 <= i < d.len() implies !pred(#[trigger] d[i]) by {
            assert(d[i] == s[i]);
        }
        lemma_filter_none(d, pred);
        assert(!pred(s[s.len() - 1]));
    }
}

/// Any filter of a well-ordered item sequence is itself well-ordered,
/// keeps the highlight invariant, and draws its elements from the
/// original.
pub proof fn lemma_items_filter_wf(s: Seq<Item>, pred: spec_fn(Item) -> bool)
    requires
        items_ordered(s),
        highlight_exclusive(s),
    ensures
        items_ordered(s.filter(pred)),
        highlight_exclusive(s.filter(pred)),
        forall|k: int| 0 <= k < s.filter(pred).len() ==> s.contains(#[trigger] s.filter(pred)[k]),
{
    let rel = |a: Item, b: Item|
        a.id < b.id && a.created_at < b.created_at && !(a.retro_id == b.retro_id && a.status
            == Status::Highlighted && b.status == Status::Highlighted);
    assert forall|i: int, j: int|
        #![trigger s[i], s[j]]
        0 <= i < j < s.len() implies rel(s[i], s[j]) by {}
    lemma_filter_keeps_ordered_pairs(s, pred, rel);
    let f = s.filter(pred);
    assert forall|i: int, j: int|
        #![trigger f[i], f[j]]
        0 <= i < j < f.len() implies f[i].id < f[j].id && f[i].created_at < f[j].created_at && !(
        f[i].retro_id == f[j].retro_id && f[i].status == Status::Highlighted && f[j].status
            == Status::Highlighted) by {
        assert(rel(f[i], f[j]));
    }
}

/// Any filter of a well-ordered board sequence is itself well-ordered and
/// draws its elements from the original.
pub proof fn lemma_retros_filter_wf(s: Seq<Retrospective>, pred: spec_fn(Retrospective) -> bool)
    requires
        retros_ordered(s),
    ensures
        retros_ordered(s.filter(pred)),
        forall|k: int| 0 <= k < s.filter(pred).len() ==> s.contains(#[trigger] s.filter(pred)[k]),
{
    let rel = |a: Retrospective, b: Retrospective| a.id < b.id && a.created_at < b.created_at;
    assert forall|i: int, j: int|
        #![trigger s[i], s[j]]
        0 <= i < j < s.len() implies rel(s[i], s[j]) by {}
    lemma_filter_keeps_ordered_pairs(s, pred, rel);
    let f = s.filter(pred);
    assert forall|i: int, j: int|
        #![trigger f[i], f[j]]
        0 <= i < j < f.len() implies f[i].id < f[j].id && f[i].created_at < f[j].created_at by {
        assert(rel(f[i], f[j]));
    }
}

/// On a well-formed board the highlight is unique: the number of
/// highlighted items of any board is zero or one.  Together with every
/// operation preserving `Store::wf`, this holds after any sequence of
/// toggles.
pub proof fn lemma_at_most_one_highlighted(s: Seq<Item>, rid: u64)
    requires
        highlight_exclusive(s),
    ensures
        count_highlighted(s, rid) <= 1,
    decreases s.len(),
{
    if s.len() > 0 {
        let prefix = s.drop_last();
        assert(forall|i: int, j: int|
            #![trigger prefix[i], prefix[j]]
            0 <= i < j < prefix.len() ==> prefix[i] == s[i] && prefix[j] == s[j]);
        lemma_at_most_one_highlighted(prefix, rid);
        if s.last().retro_id == rid && s.last().status == Status::Highlighted {
            assert forall|i: int| 0 <= i < prefix.len() implies !((#[trigger] prefix[i]).retro_id
                == rid && prefix[i].status == Status::Highlighted) by {
                assert(s[i] == prefix[i]);
                assert(s[s.len() - 1] == s.last());
            }
            lemma_no_highlighted_counts_zero(prefix, rid);
        }
    }
}

/// A board none of whose items is highlighted has a highlight count of
/// zero.
pub proof fn lemma_no_highlighted_counts_zero(s: Seq<Item>, rid: u64)
    requires
        forall|i: int|
            0 <= i < s.len() ==> !((#[trigger] s[i]).retro_id == rid && s[i].status
                == Status::Highlighted),
    ensures
        count_highlighted(s, rid) == 0,
    decreases s.len(),
{
    if s.len() > 0 {
        assert(s.last() == s[s.len() - 1]);
        assert(forall|i: int| 0 <= i < s.len() - 1 ==> s.drop_last()[i] == s[i]);
        lemma_no_highlighted_counts_zero(s.drop_last(), rid);
    }
}

/// The highlight invariant at the store level: in a well-formed store —
/// and every store operation both assumes and re-establishes
/// well-formedness, so any sequence of toggles keeps it — every board has
/// zero or one highlighted item.
pub proof fn lemma_store_highlight_invariant(st: &Store, rid: u64)
    requires
        st.wf(),
    ensures
        count_highlighted(st.items@, rid) <= 1,
{
    lemma_at_most_one_highlighted(st.items@, rid);
}

/// A board with exactly one highlighted item has a highlight count of
/// one.
pub proof fn lemma_one_highlighted_counts_one(s: Seq<Item>, rid: u64, w: int)
    requires
        0 <= w < s.len(),
        s[w].retro_id == rid,
        s[w].status == Status::Highlighted,
        forall|i: int|
            0 <= i < s.len() && i != w ==> !((#[trigger] s[i]).retro_id == rid && s[i].status
                == Status::Highlighted),
    ensures
        count_highlighted(s, rid) == 1,
    decreases s.len(),
{
    let d = s.drop_last();
    assert(s.last() == s[s.len() - 1]);
    if w == s.len() - 1 {
        assert forall|i: int| 0 <= i < d.len() implies !((#[trigger] d[i]).retro_id == rid
            && d[i].status == Status::Highlighted) by {
            assert(d[i] == s[i]);
        }
        lemma_no_highlighted_counts_zero(d, rid);
    } else {
        assert forall|i: int| 0 <= i < d.len() && i != w implies !((#[trigger] d[i]).retro_id
            == rid && d[i].status == Status::Highlighted) by {
            assert(d[i] == s[i]);
        }
        assert(d[w] == s[w]);
        lemma_one_highlighted_counts_one(d, rid, w);
    }
}

/// A board all of whose items are archived has no active items left to
/// count.
pub proof fn lemma_no_active_counts_zero(s: Seq<Item>, rid: u64)
    requires
        forall|i: int|
            0 <= i < s.len() && (#[trigger] s[i]).retro_id == rid ==> !is_active(s[i]),
    ensures
        count_active(s, rid) == 0,
    decreases s.len(),
{
    if s.len() > 0 {
        assert(s.last() == s[s.len() - 1]);
        assert(forall|i: int| 0 <= i < s.len() - 1 ==> s.drop_last()[i] == s[i]);
        lemma_no_active_counts_zero(s.drop_last(), rid);
    }
}

/// Mutual exclusion under contention: when two distinct items of one
/// board are both created and the board's highlight is free, toggling one
/// and then the other — either serialization of two contending toggles —
/// highlights exactly the one toggled first; the second stays created, and
/// the board ends with exactly one highlighted item, never two and never
/// none.
pub proof fn lemma_toggle_mutual_exclusion(s: Seq<Item>, a: u64, b: u64)
    requires
        items_ordered(s),
        has_item(s, a),
        has_item(s, b),
        a != b,
        s[item_index_of(s, a)].retro_id == s[item_index_of(s, b)].retro_id,
        s[item_index_of(s, a)].status == Status::Created,
        s[item_index_of(s, b)].status == Status::Created,
        forall|i: int|
            0 <= i < s.len() && (#[trigger] s[i]).retro_id == s[item_index_of(s, a)].retro_id
                ==> s[i].status != Status::Highlighted,
    ensures
        ({
            let rid = s[item_index_of(s, a)].retro_id;
            let s2 = toggle_model(toggle_model(s, a), b);
            &&& s2[item_index_of(s, a)].status == Status::Highlighted
            &&& s2[item_index_of(s, b)].status == Status::Created
            &&& count_highlighted(s2, rid) == 1
        }),
{
    let ia = item_index_of(s, a);
    let ib = item_index_of(s, b);
    assert(0 <= ia < s.len() && s[ia].id == a);
    assert(0 <= ib < s.len() && s[ib].id == b);
    let rid = s[ia].retro_id;
    assert(!other_highlighted(s, ia)) by {
        if other_highlighted(s, ia) {
            let j = choose|j: int|
                0 <= j < s.len() && j != ia && (#[trigger] s[j]).retro_id == s[ia].retro_id
                    && s[j].status == Status::Highlighted;
            assert(s[j].status != Status::Highlighted);
        }
    }
    let hl = Item { status: Status::Highlighted, ..s[ia] };
    let s1 = toggle_model(s, a);
    assert(s1 == s.update(ia, hl));
    // identifiers are untouched, so item lookup lands on the same indices
    assert(has_item(s1, b)) by {
        assert(s1[ib].id == b);
    }
    let ib1 = item_index_of(s1, b);
    assert(0 <= ib1 < s1.len() && s1[ib1].id == b);
    assert(ib1 == ib) by {
        if ib1 != ib {
            assert(s[ib1].id == s1[ib1].id);
            assert(s[ib1].id == s[ib].id);
        }
    }
    assert(other_highlighted(s1, ib)) by {
        assert(s1[ia].retro_id == s1[ib].retro_id && s1[ia].status == Status::Highlighted);
    }
    assert(s1[ib].status == Status::Created);
    let s2 = toggle_model(s1, b);
    assert(s2 == s1.update(ib, Item { status: Status::Created, ..s1[ib] }));
    assert(s2 =~= s1);
    assert(s2[ia].status == Status::Highlighted);
    assert(s2[ib].status == Status::Created);
    assert forall|i: int| 0 <= i < s2.len() && i != ia implies !((#[trigger] s2[i]).retro_id
        == rid && s2[i].status == Status::Highlighted) by {
        assert(s2[i] == s[i]);
        assert(s[i].status != Status::Highlighted || s[i].retro_id != rid);
    }
    lemma_one_highlighted_counts_one(s2, rid, ia);
}

/// Archival is idempotent: a second archival pass changes no record and
/// finds zero active items to archive.
pub proof fn lemma_archive_idempotent(s: Seq<Item>, rid: u64)
    ensures
        archive_model(archive_model(s, rid), rid) == archive_model(s, rid),
        count_active(archive_model(s, rid), rid) == 0,
{
    let once = archive_model(s, rid);
    assert(archive_model(once, rid) =~= once);
    assert forall|i: int|
        0 <= i < once.len() && (#[trigger] once[i]).retro_id == rid implies !is_active(
        once[i],
    ) by {}
    lemma_no_active_counts_zero(once, rid);
}

/// After a board is archived, every category column of its view is empty.
pub proof fn lemma_archived_board_views_empty(s: Seq<Item>, rid: u64, cat: Category)
    ensures
        archive_model(s, rid).filter(cat_pred(rid, cat)) == Seq::<Item>::empty(),
{
    let once = archive_model(s, rid);
    assert forall|i: int| 0 <= i < once.len() implies !cat_pred(rid, cat)(
        #[trigger] once[i],
    ) by {}
    lemma_filter_none(once, cat_pred(rid, cat));
}

/// Adding a freshly created item to a fully resolved board makes it
/// unresolved: the new item is active and not completed.
pub proof fn lemma_new_item_breaks_resolution(s: Seq<Item>, it: Item)
    requires
        it.status == Status::Created,
    ensures
        !board_resolved(s.push(it), it.retro_id),
{
    assert(s.push(it)[s.len() as int] == it);
}

} // verus!
