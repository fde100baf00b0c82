//! Data model: boards, items, their categories and statuses, and the pure
//! transition table of the status engine.

use vstd::prelude::*;

verus! {

/// Column of a retrospective board; the set is fixed and closed.
#[derive(Clone, Copy, Debug, PartialEq, Eq, Structural)]
pub enum Category {
    Good,
    Bad,
    Watch,
}

/// Lifecycle status of an item.  `Archived` is absorbing; `Completed` and
/// `Archived` are terminal with respect to toggling.
#[derive(Clone, Copy, Debug, PartialEq, Eq, Structural)]
pub enum Status {
    Created,
    Highlighted,
    Completed,
    Archived,
}

impl Default for Status {
    fn default() -> (r: Self)
        ensures
            r == Status::Created,
    {
        Status::Created
    }
}

impl Category {
    /// The canonical upper-case label of this category.
    pub open spec fn label(self) -> Seq<char> {
        match self {
            Category::Good => "GOOD"@,
            Category::Bad => "BAD"@,
            Category::Watch => "WATCH"@,
        }
    }

    /// Renders the canonical upper-case label.
    pub fn to_string(&self) -> (r: String)
        ensures
            r@ == self.label(),
    {
        match self {
            Category::Good => "GOOD".to_owned(),
            Category::Bad => "BAD".to_owned(),
            Category::Watch => "WATCH".to_owned(),
        }
    }
}

/// A retrospective board.  `created_at` is a logical creation stamp taken
/// from the store's allocation counter: only its order matters.
#[derive(Debug)]
pub struct Retrospective {
    pub id: u64,
    pub title: String,
    pub created_at: u64,
}

/// A single note on a board.  `retro_id` references the owning board;
/// `created_at` is the logical creation stamp.
#[derive(Debug)]
pub struct Item {
    pub id: u64,
    pub retro_id: u64,
    pub text: String,
    pub category: Category,
    pub created_at: u64,
    pub status: Status,
}

/// Payload for creating a board.
#[derive(Debug)]
pub struct NewRetro {
    pub title: String,
}

/// Payload for adding an item to a board.
#[derive(Debug)]
pub struct NewItem {
    pub text: String,
}

/// Errors of the board store.  `NotFound`: the referenced board or item
/// does not exist.  `Conflict`: a conditional update found the record, or
/// its board, in a state other than the one it presupposed.
#[derive(Clone, Copy, Debug, PartialEq, Eq, Structural)]
pub enum StoreError {
    NotFound,
    Conflict,
}

/// An item counts as active unless it has been archived.
pub open spec fn is_active(it: Item) -> bool {
    it.status != Status::Archived
}

/// The transition table of the status engine: the candidate next status of
/// an item, given whether another active item on the same board is
/// currently highlighted.
///
/// * `Created` becomes `Highlighted`, unless the highlight is taken, in
///   which case it stays `Created`;
/// * `Highlighted` becomes `Completed`;
/// * `Completed` and `Archived` are unchanged.
pub open spec fn next_status(cur: Status, other_highlighted: bool) -> Status {
    match cur {
        Status::Created => if other_highlighted {
            Status::Created
        } else {
            Status::Highlighted
        },
        Status::Highlighted => Status::Completed,
        Status::Completed => Status::Completed,
        Status::Archived => Status::Archived,
    }
}

/// Executable form of the transition table.
pub fn decide_next_status(cur: Status, other_highlighted: bool) -> (r: Status)
    ensures
        r == next_status(cur, other_highlighted),
{
    match cur {
        Status::Created => if other_highlighted {
            Status::Created
        } else {
            Status::Highlighted
        },
        Status::Highlighted => Status::Completed,
        Status::Completed => Status::Completed,
        Status::Archived => Status::Archived,
    }
}

} // verus!
