//! The objects of a game, by identifier.

use vstd::prelude::*;

use crate::game_object::{GameObject, GameObjectView};
use crate::identifiers::ObjectId;
use crate::text::views;

verus! {

/// Every object of a game with its identifier, in the order of the identifiers.
pub type Board = Seq<(ObjectId, GameObjectView)>;

/// Whether the identifiers rise from each entry to the next, so that none occurs
/// twice.
pub open spec fn ascending(board: Board) -> bool {
    forall|i: int, j: int| 0 <= i < j < board.len() ==> (#[trigger] board[i]).0.0 < (#[trigger] board[j]).0.0
}

/// Whether `board` has an object with this identifier.
pub open spec fn contains_id(board: Board, id: ObjectId) -> bool {
    exists|i: int| 0 <= i < board.len() && (#[trigger] board[i]).0 == id
}

/// The object with this identifier.
pub open spec fn lookup(board: Board, id: ObjectId) -> Option<GameObjectView> {
    if contains_id(board, id) {
        Some(board[choose|i: int| 0 <= i < board.len() && (#[trigger] board[i]).0 == id].1)
    } else {
        None
    }
}

/// `board`, with the object that has this identifier replaced.
pub open spec fn replaced(board: Board, id: ObjectId, object: GameObjectView) -> Board {
    board.map_values(
        |entry: (ObjectId, GameObjectView)|
            if entry.0 == id {
                (id, object)
            } else {
                entry
            },
    )
}

/// `board` without the object that has this identifier.
pub open spec fn without(board: Board, id: ObjectId) -> Board {
    board.filter(other_than(id))
}

/// The entries with another identifier than this one.
pub open spec fn other_than(id: ObjectId) -> spec_fn((ObjectId, GameObjectView)) -> bool {
    |entry: (ObjectId, GameObjectView)| entry.0 != id
}

/// An entry of an ordered board is what its identifier leads to.
pub proof fn lemma_lookup(board: Board, i: int)
    requires
        ascending(board),
        0 <= i < board.len(),
    ensures
        contains_id(board, board[i].0),
        lookup(board, board[i].0) == Some(board[i].1),
{
    let j = choose|j: int| 0 <= j < board.len() && (#[trigger] board[j]).0 == board[i].0;
    assert(board[j].0 == board[i].0);
    assert(i == j) by {
        if i < j {
            assert(board[i].0.0 < board[j].0.0);
        } else if j < i {
            assert(board[j].0.0 < board[i].0.0);
        }
    }
}

/// Removing the entry at one index removes what its identifier leads to, and nothing
/// else.
proof fn lemma_without(board: Board, i: int)
    requires
        ascending(board),
        0 <= i < board.len(),
    ensures
        without(board, board[i].0) == board.remove(i),
        ascending(board.remove(i)),
{
    let id = board[i].0;
    let keep = other_than(id);
    let front = board.take(i);
    let back = board.skip(i + 1);
    assert(board =~= front + seq![board[i]] + back);
    assert forall|k: int| 0 <= k < front.len() implies keep(#[trigger] front[k]) by {
        assert(board[k].0.0 < board[i].0.0);
    }
    assert forall|k: int| 0 <= k < back.len() implies keep(#[trigger] back[k]) by {
        assert(board[i].0.0 < board[i + 1 + k].0.0);
    }
    lemma_filter_keeps_all(front, keep);
    lemma_filter_keeps_all(back, keep);
    Seq::filter_distributes_over_add(front + seq![board[i]], back, keep);
    Seq::filter_distributes_over_add(front, seq![board[i]], keep);
    assert(seq![board[i]].filter(keep) =~= Seq::empty()) by {
        reveal_with_fuel(Seq::filter, 2);
    }
    assert(board.remove(i) =~= front + back);
}

proof fn lemma_filter_keeps_all<A>(s: Seq<A>, keep: spec_fn(A) -> bool)
    requires
        forall|k: int| 0 <= k < s.len() ==> keep(#[trigger] s[k]),
    ensures
        s.filter(keep) == s,
    decreases s.len(),
{
    reveal(Seq::filter);
    if s.len() > 0 {
        assert(keep(s[s.len() - 1]));
        lemma_filter_keeps_all(s.drop_last(), keep);
        assert(s.drop_last().push(s.last()) =~= s);
    }
}

/// The objects of a game.
#[derive(Debug)]
pub struct ObjectTable {
    entries: Vec<(ObjectId, GameObject)>,
}

impl View for ObjectTable {
    type V = Board;

    closed spec fn view(&self) -> Board {
        views(self.entries@)
    }
}

impl Clone for ObjectTable {
    fn clone(&self) -> (copy: Self)
        ensures
            copy@ == self@,
    {
        let mut entries: Vec<(ObjectId, GameObject)> = Vec::new();
        let mut i: usize = 0;
        while i < self.entries.len()
            invariant
                i <= self.entries.len(),
                views(entries@) == self@.take(i as int),
            decreases self.entries.len() - i,
        {
            let ghost before = entries@;
            entries.push((self.entries[i].0, self.entries[i].1.clone()));
            proof {
                assert(views(entries@) =~= views(before).push(self@[i as int]));
                assert(self@.take(i + 1) =~= self@.take(i as int).push(self@[i as int]));
            }
            i = i + 1;
        }
        proof {
            assert(self@.take(self.entries.len() as int) =~= self@);
        }
        ObjectTable { entries }
    }
}

impl ObjectTable {
    /// No objects.
    pub fn new() -> (table: Self)
        ensures
            table@ == Board::empty(),
            ascending(table@),
    {
        let table = ObjectTable { entries: Vec::new() };
        proof {
            assert(table@ =~= Board::empty());
        }
        table
    }

    /// How many objects there are.
    pub fn len(&self) -> (len: usize)
        ensures
            len == self@.len(),
    {
        self.entries.len()
    }

    /// The identifier of the entry at an index.
    pub fn id_at(&self, i: usize) -> (id: ObjectId)
        requires
            i < self@.len(),
        ensures
            id == self@[i as int].0,
    {
        self.entries[i].0
    }

    /// The object of the entry at an index.
    pub fn object_at(&self, i: usize) -> (object: &GameObject)
        requires
            i < self@.len(),
        ensures
            object@ == self@[i as int].1,
    {
        &self.entries[i].1
    }

    /// The object of the entry at an index, to be changed.
    pub fn object_at_mut(&mut self, i: usize) -> (object: &mut GameObject)
        requires
            i < old(self)@.len(),
        ensures
            object@ == old(self)@[i as int].1,
            final(self)@ == old(self)@.update(i as int, (old(self)@[i as int].0, final(object)@)),
            ascending(old(self)@) ==> ascending(final(self)@),
    {
        let ghost before = self@;
        let object = &mut self.entries[i].1;
        proof {
            if ascending(before) {
                lemma_replaced(before, i as int, final(object)@);
            }
        }
        object
    }

    /// The identifiers, in ascending order.
    pub fn ids(&self) -> (ids: Vec<ObjectId>)
        ensures
            ids@.len() == self@.len(),
            forall|i: int| 0 <= i < ids@.len() ==> #[trigger] ids@[i] == self@[i].0,
    {
        let mut ids: Vec<ObjectId> = Vec::new();
        let mut i: usize = 0;
        while i < self.entries.len()
            invariant
                i <= self.entries.len(),
                ids@.len() == i,
                forall|k: int| 0 <= k < i ==> #[trigger] ids@[k] == self@[k].0,
            decreases self.entries.len() - i,
        {
            ids.push(self.entries[i].0);
            i = i + 1;
        }
        ids
    }

    /// The index of the entry with this identifier.
    pub fn find(&self, id: ObjectId) -> (index: Option<usize>)
        requires
            ascending(self@),
        ensures
            match index {
                Some(i) => i < self@.len() && self@[i as int].0 == id,
                None => !contains_id(self@, id),
            },
    {
        let mut low: usize = 0;
        let mut high: usize = self.entries.len();
        while low < high
            invariant
                low <= high <= self.entries.len(),
                self@.len() == self.entries.len(),
                ascending(self@),
                forall|k: int| 0 <= k < low ==> (#[trigger] self@[k]).0.0 < id.0,
                forall|k: int| high <= k < self@.len() ==> (#[trigger] self@[k]).0.0 > id.0,
            decreases high - low,
        {
            let middle: usize = low + (high - low) / 2;
            let found: u64 = self.entries[middle].0.0;
            assert(found == self@[middle as int].0.0);
            if found == id.0 {
                return Some(middle);
            } else if found < id.0 {
                low = middle + 1;
            } else {
                high = middle;
            }
        }
        None
    }

    /// The object with this identifier.
    pub fn get(&self, id: &ObjectId) -> (object: Option<&GameObject>)
        requires
            ascending(self@),
        ensures
            match object {
                Some(object) => lookup(self@, *id) == Some(object@),
                None => lookup(self@, *id) is None,
            },
    {
        match self.find(*id) {
            Some(i) => {
                proof {
                    lemma_lookup(self@, i as int);
                }
                Some(&self.entries[i].1)
            },
            None => None,
        }
    }

    /// The object with this identifier, to be changed.
    pub fn get_mut(&mut self, id: &ObjectId) -> (object: Option<&mut GameObject>)
        requires
            ascending(old(self)@),
        ensures
            match object {
                Some(object) => {
                    &&& lookup(old(self)@, *id) == Some(object@)
                    &&& final(self)@ == replaced(old(self)@, *id, final(object)@)
                },
                None => lookup(old(self)@, *id) is None && final(self)@ == old(self)@,
            },
            ascending(final(self)@),
    {
        match self.find(*id) {
            Some(i) => {
                let ghost before = self@;
                proof {
                    lemma_lookup(self@, i as int);
                }
                let object = self.object_at_mut(i);
                proof {
                    lemma_replaced(before, i as int, final(object)@);
                }
                Some(object)
            },
            None => None,
        }
    }

    /// Adds an object whose identifier is above all the others.
    pub fn append(&mut self, id: ObjectId, object: GameObject)
        requires
            forall|i: int| 0 <= i < old(self)@.len() ==> (#[trigger] old(self)@[i]).0.0 < id.0,
        ensures
            final(self)@ == old(self)@.push((id, object@)),
            ascending(old(self)@) ==> ascending(final(self)@),
    {
        let ghost before = self.entries@;
        self.entries.push((id, object));
        proof {
            assert(views(self.entries@) =~= views(before).push((id, object@)));
        }
    }

    /// Takes the object with this identifier out of the game.
    pub fn remove(&mut self, id: &ObjectId) -> (object: Option<GameObject>)
        requires
            ascending(old(self)@),
        ensures
            ascending(final(self)@),
            match object {
                Some(object) => {
                    &&& lookup(old(self)@, *id) == Some(object@)
                    &&& final(self)@ == without(old(self)@, *id)
                },
                None => lookup(old(self)@, *id) is None && final(self)@ == old(self)@,
            },
    {
        match self.find(*id) {
            Some(i) => {
                let ghost before = self.entries@;
                proof {
                    lemma_lookup(self@, i as int);
                    lemma_without(self@, i as int);
                }
                let (_, object) = self.entries.remove(i);
                proof {
                    assert(views(self.entries@) =~= views(before).remove(i as int));
                }
                Some(object)
            },
            None => None,
        }
    }
}

/// Replacing what an identifier leads to changes the one entry that has it.
pub proof fn lemma_replaced(board: Board, i: int, object: GameObjectView)
    requires
        ascending(board),
        0 <= i < board.len(),
    ensures
        replaced(board, board[i].0, object) == board.update(i, (board[i].0, object)),
        ascending(replaced(board, board[i].0, object)),
{
    assert forall|k: int| 0 <= k < board.len() && k != i implies (#[trigger] board[k]).0 != board[i].0 by {
        if k < i {
            assert(board[k].0.0 < board[i].0.0);
        } else {
            assert(board[i].0.0 < board[k].0.0);
        }
    }
    assert(replaced(board, board[i].0, object) =~= board.update(i, (board[i].0, object)));
}

} // verus!
