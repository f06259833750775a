//! The chain: the append-only sequence of cells that every handle reads,
//! kept together with the table of the handles that read it.

use std::collections::VecDeque;
use vstd::prelude::*;

verus! {

/// `first` is the lowest position of any handle: no handle stands before it,
/// none stands behind `end`, and one stands at `first` unless `first` is
/// `end` itself. Where there is no handle at all, only `end` is.
pub open spec fn is_lowest(positions: Map<nat, nat>, end: nat, first: nat) -> bool {
    &&& first <= end
    &&& forall|id: nat| positions.dom().contains(id) ==> first <= #[trigger] positions[id] <= end
    &&& (first == end || exists|id: nat|
        positions.dom().contains(id) && #[trigger] positions[id] == first)
}

/// What a chain is made of: the cells still held, the number of cells given
/// up before them, the positions of the handles by their numbers, and the
/// items of the cells given up, for the record.
struct Store<T> {
    first: usize,
    cells: VecDeque<T>,
    table: Vec<Option<usize>>,
    released: Ghost<Seq<T>>,
}

impl<T> View for Store<T> {
    type V = Seq<T>;

    /// Every item ever appended, oldest first, those of the cells given up
    /// included: the sequence by which positions are counted.
    closed spec fn view(&self) -> Seq<T> {
        self.released@ + self.cells@
    }
}

impl<T> Store<T> {
    /// The index of the oldest cell that the chain still holds, which is
    /// the number of cells given up.
    spec fn first_held(&self) -> nat {
        self.first as nat
    }

    /// The handles on this chain, by their numbers, each with the index of
    /// the next cell that it has to consume.
    spec fn positions(&self) -> Map<nat, nat> {
        Map::new(
            |id: nat| id < self.table@.len() && self.table@[id as int].is_some(),
            |id: nat| self.table@[id as int].unwrap() as nat,
        )
    }

    /// What holds of a store whether or not it has given up all it can: the
    /// count of the cells given up is right, every index fits, and every
    /// handle stands at a cell that is held or at the end.
    spec fn bounded(&self) -> bool {
        &&& self.released@.len() == self.first
        &&& self.first + self.cells@.len() <= usize::MAX
        &&& forall|id: nat|
            self.positions().dom().contains(id) ==> self.first <= #[trigger] self.positions()[id]
                <= self@.len()
    }

    /// The store is in order: it holds exactly the cells from the lowest
    /// position of any handle to its end.
    spec fn wf(&self) -> bool {
        &&& self.bounded()
        &&& is_lowest(self.positions(), self@.len(), self.first_held())
    }

    /// An empty chain with one handle on it, at the start, and the number
    /// of that handle.
    fn start() -> (made: (Self, usize))
        ensures
            made.0.wf(),
            made.0@ == Seq::<T>::empty(),
            made.0.first_held() == 0,
            made.0.positions() == Map::<nat, nat>::empty().insert(made.1 as nat, 0),
    {
        let mut table: Vec<Option<usize>> = Vec::new();
        table.push(Some(0));
        let store = Store { first: 0, cells: VecDeque::new(), table, released: Ghost(Seq::empty()) };
        proof {
            assert(store@ =~= Seq::<T>::empty());
            assert(store.positions().dom().contains(0) && store.positions()[0] == 0);
            assert(store.positions() =~= Map::<nat, nat>::empty().insert(0, 0));
        }
        (store, 0)
    }

    /// The number of cells ever appended.
    fn len(&self) -> (n: usize)
        requires
            self.wf(),
        ensures
            n == self@.len(),
    {
        self.first + self.cells.len()
    }

    /// The index of the oldest cell still held.
    fn held_from(&self) -> (first: usize)
        ensures
            first == self.first_held(),
    {
        self.first
    }

    /// The item of the cell at `index`, or `None` where the chain has given
    /// the cell up or has not grown that far.
    fn get(&self, index: usize) -> (cell: Option<&T>)
        requires
            self.wf(),
        ensures
            self.first_held() <= index < self@.len() ==> cell == Some(&self@[index as int]),
            index < self.first_held() || index >= self@.len() ==> cell.is_none(),
    {
        if index >= self.first && index - self.first < self.cells.len() {
            Some(&self.cells[index - self.first])
        } else {
            None
        }
    }

    /// Whether `id` is the number of a handle on this chain.
    fn has(&self, id: usize) -> (found: bool)
        ensures
            found == self.positions().dom().contains(id as nat),
    {
        id < self.table.len() && self.table[id].is_some()
    }

    /// The position of the handle `id`.
    fn position(&self, id: usize) -> (pos: usize)
        requires
            self.positions().dom().contains(id as nat),
        ensures
            pos == self.positions()[id as nat],
    {
        match self.table[id] {
            Some(pos) => pos,
            None => 0,
        }
    }

    /// The item that the handle `id` has to read next, if the chain has
    /// grown that far.
    fn unread(&self, id: usize) -> (cell: Option<&T>)
        requires
            self.wf(),
            self.positions().dom().contains(id as nat),
        ensures
            self.positions()[id as nat] < self@.len() ==> cell == Some(
                &self@[self.positions()[id as nat] as int],
            ),
            self.positions()[id as nat] >= self@.len() ==> cell.is_none(),
    {
        let pos = self.position(id);
        self.get(pos)
    }

    /// Installs a new cell holding `item` behind the last cell of the chain.
    fn append(&mut self, item: T)
        requires
            old(self).wf(),
            exists|id: nat| old(self).positions().dom().contains(id),
            old(self)@.len() < usize::MAX,
        ensures
            final(self).wf(),
            final(self)@ == old(self)@.push(item),
            final(self).positions() == old(self).positions(),
            final(self).first_held() == old(self).first_held(),
    {
        self.cells.push_back(item);
        proof {
            assert(self@ =~= old(self)@.push(item));
            assert(self.positions() =~= old(self).positions());
            let any = choose|id: nat| old(self).positions().dom().contains(id);
            assert(self.first <= self.positions()[any] <= old(self)@.len());
        }
    }

    /// The lowest position of any handle, or the end of the chain where
    /// there is no handle.
    fn lowest(&self) -> (low: usize)
        requires
            self.bounded(),
        ensures
            is_lowest(self.positions(), self@.len(), low as nat),
            self.first <= low,
    {
        let mut low = self.first + self.cells.len();
        let mut id: usize = 0;
        while id < self.table.len()
            invariant
                self.bounded(),
                id <= self.table@.len(),
                self.first <= low <= self@.len(),
                forall|other: nat|
                    other < id && self.positions().dom().contains(other) ==> low
                        <= #[trigger] self.positions()[other],
                low == self@.len() || exists|other: nat|
                    other < id && self.positions().dom().contains(other)
                        && #[trigger] self.positions()[other] == low,
            decreases self.table@.len() - id,
        {
            match self.table[id] {
                Some(pos) => {
                    assert(self.positions().dom().contains(id as nat));
                    assert(self.positions()[id as nat] == pos);
                    if pos < low {
                        low = pos;
                    }
                },
                None => {},
            }
            id = id + 1;
        }
        low
    }

    /// Gives up the cells that every handle has passed.
    fn settle(&mut self)
        requires
            old(self).bounded(),
        ensures
            final(self).wf(),
            final(self)@ == old(self)@,
            final(self).positions() == old(self).positions(),
    {
        let low = self.lowest();
        while self.first < low
            invariant
                self.bounded(),
                self@ == old(self)@,
                self.table == old(self).table,
                self.first <= low,
                is_lowest(self.positions(), self@.len(), low as nat),
            decreases low - self.first,
        {
            let ghost front = self.cells@[0];
            let ghost before = self@;
            let _ = self.cells.pop_front();
            self.first = self.first + 1;
            proof {
                self.released = Ghost(self.released@.push(front));
                assert(self@ =~= before);
            }
        }
    }

    /// Moves the handle `id`, which has a cell to read, on to the next
    /// cell, and gives up the cell it leaves where no other handle can reach
    /// it.
    fn advance(&mut self, id: usize)
        requires
            old(self).wf(),
            old(self).positions().dom().contains(id as nat),
            old(self).positions()[id as nat] < old(self)@.len(),
        ensures
            final(self).wf(),
            final(self)@ == old(self)@,
            final(self).positions() == old(self).positions().insert(
                id as nat,
                old(self).positions()[id as nat] + 1,
            ),
    {
        let pos = self.position(id);
        self.table.set(id, Some(pos + 1));
        proof {
            assert(self.positions() =~= old(self).positions().insert(id as nat, (pos + 1) as nat));
        }
        self.settle();
    }

    /// Puts a second handle on the chain, at the position of the handle
    /// `id`, and returns its number.
    fn duplicate(&mut self, id: usize) -> (twin: usize)
        requires
            old(self).wf(),
            old(self).positions().dom().contains(id as nat),
        ensures
            final(self).wf(),
            final(self)@ == old(self)@,
            !old(self).positions().dom().contains(twin as nat),
            final(self).positions() == old(self).positions().insert(
                twin as nat,
                old(self).positions()[id as nat],
            ),
            final(self).first_held() == old(self).first_held(),
    {
        let pos = self.position(id);
        let mut twin: usize = 0;
        while twin < self.table.len() && self.table[twin].is_some()
            invariant
                twin <= self.table@.len(),
            decreases self.table@.len() - twin,
        {
            twin = twin + 1;
        }
        if twin < self.table.len() {
            self.table.set(twin, Some(pos));
        } else {
            self.table.push(Some(pos));
        }
        proof {
            assert(self.positions() =~= old(self).positions().insert(twin as nat, pos as nat));
            assert(self@ == old(self)@);
            if self.first_held() != self@.len() {
                let lowest = choose|other: nat|
                    old(self).positions().dom().contains(other) && #[trigger] old(
                        self,
                    ).positions()[other] == old(self).first_held();
                assert(self.positions().dom().contains(lowest));
                assert(self.positions()[lowest] == self.first_held());
            }
            assert forall|other: nat| self.positions().dom().contains(other) implies self.first
                <= #[trigger] self.positions()[other] <= self@.len() by {
                if other != twin {
                    assert(old(self).positions().dom().contains(other));
                }
            }
        }
        twin
    }

    /// Takes the handle `id` off the chain, and gives up the cells that
    /// only this handle could reach.
    fn leave(&mut self, id: usize)
        requires
            old(self).wf(),
            old(self).positions().dom().contains(id as nat),
        ensures
            final(self).wf(),
            final(self)@ == old(self)@,
            final(self).positions() == old(self).positions().remove(id as nat),
    {
        self.table.set(id, None);
        proof {
            assert(self.positions() =~= old(self).positions().remove(id as nat));
        }
        self.settle();
    }
}

/// An append-only sequence of cells, each holding one item, and the
/// positions of the handles on it.
///
/// A cell is identified by its index, which counts every cell ever appended.
/// A cell keeps its index and its item for as long as a handle can still
/// reach it. Once every handle has passed a cell, the chain gives the cell
/// up and drops its item: at every moment the chain holds the cells from the
/// lowest position of any of its handles to its end, and no others.
pub struct Chain<T> {
    store: Store<T>,
}

impl<T> View for Chain<T> {
    type V = Seq<T>;

    /// Every item ever appended, oldest first, those of the cells given up
    /// included: the sequence by which positions are counted.
    closed spec fn view(&self) -> Seq<T> {
        self.store@
    }
}

impl<T> Chain<T> {
    #[verifier::type_invariant]
    spec fn in_order(&self) -> bool {
        self.store.wf()
    }

    /// The index of the oldest cell that the chain still holds, which is
    /// the number of cells given up.
    pub closed spec fn first_held(&self) -> nat {
        self.store.first_held()
    }

    /// The handles on this chain, by their numbers, each with the index of
    /// the next cell that it has to consume.
    pub closed spec fn positions(&self) -> Map<nat, nat> {
        self.store.positions()
    }

    /// The chain holds what can be reached and nothing else: its oldest cell
    /// is the one at the lowest position of any of its handles.
    pub open spec fn holds_what_can_be_reached(&self) -> bool {
        is_lowest(self.positions(), self@.len(), self.first_held())
    }

    /// A chain that holds no cell and has no handle.
    fn vacant() -> (chain: Self)
        ensures
            chain.store.wf(),
    {
        let store = Store {
            first: 0,
            cells: VecDeque::new(),
            table: Vec::new(),
            released: Ghost(Seq::empty()),
        };
        proof {
            assert(store@ =~= Seq::<T>::empty());
        }
        Chain { store }
    }

    /// Takes the store out of the chain, to be changed and put back.
    fn take(&mut self) -> (store: Store<T>)
        ensures
            store == old(self).store,
            store.wf(),
    {
        let mut taken = Chain::vacant();
        core::mem::swap(self, &mut taken);
        proof {
            use_type_invariant(&taken);
        }
        let Chain { store } = taken;
        store
    }

    /// An empty chain with one handle on it, at the start, and the number
    /// of that handle.
    pub(crate) fn start() -> (made: (Self, usize))
        ensures
            made.0@ == Seq::<T>::empty(),
            made.0.positions() == Map::<nat, nat>::empty().insert(made.1 as nat, 0),
            made.0.holds_what_can_be_reached(),
    {
        let (store, id) = Store::start();
        (Chain { store }, id)
    }

    /// The number of cells ever appended.
    pub fn len(&self) -> (n: usize)
        ensures
            n == self@.len(),
    {
        proof {
            use_type_invariant(self);
        }
        self.store.len()
    }

    /// The index of the oldest cell still held: the lowest position of any
    /// handle, or the end of the chain where no handle is left.
    pub fn held_from(&self) -> (first: usize)
        ensures
            first == self.first_held(),
            self.holds_what_can_be_reached(),
    {
        proof {
            use_type_invariant(self);
        }
        self.store.held_from()
    }

    /// The item of the cell at `index`, or `None` where the chain has given
    /// the cell up or has not grown that far.
    pub fn get(&self, index: usize) -> (cell: Option<&T>)
        ensures
            self.first_held() <= index < self@.len() ==> cell == Some(&self@[index as int]),
            index < self.first_held() || index >= self@.len() ==> cell.is_none(),
    {
        proof {
            use_type_invariant(self);
        }
        self.store.get(index)
    }

    /// Whether `id` is the number of a handle on this chain.
    pub(crate) fn has(&self, id: usize) -> (found: bool)
        ensures
            found == self.positions().dom().contains(id as nat),
    {
        self.store.has(id)
    }

    /// The position of the handle `id`.
    pub(crate) fn position(&self, id: usize) -> (pos: usize)
        requires
            self.positions().dom().contains(id as nat),
        ensures
            pos == self.positions()[id as nat],
            self.first_held() <= pos <= self@.len(),
    {
        proof {
            use_type_invariant(self);
        }
        self.store.position(id)
    }

    /// The item that the handle `id` has to read next, if the chain has
    /// grown that far.
    pub(crate) fn unread(&self, id: usize) -> (cell: Option<&T>)
        requires
            self.positions().dom().contains(id as nat),
        ensures
            self.positions()[id as nat] < self@.len() ==> cell == Some(
                &self@[self.positions()[id as nat] as int],
            ),
            self.positions()[id as nat] >= self@.len() ==> cell.is_none(),
    {
        proof {
            use_type_invariant(self);
        }
        self.store.unread(id)
    }

    /// Installs a new cell holding `item` behind the last cell of the chain.
    pub(crate) fn append(&mut self, item: T)
        requires
            exists|id: nat| old(self).positions().dom().contains(id),
            old(self)@.len() < usize::MAX,
        ensures
            final(self)@ == old(self)@.push(item),
            final(self).positions() == old(self).positions(),
            final(self).first_held() == old(self).first_held(),
            final(self).holds_what_can_be_reached(),
    {
        let mut store = self.take();
        store.append(item);
        *self = Chain { store };
    }

    /// Moves the handle `id`, which has a cell to read, on to the next
    /// cell, and gives up the cell it leaves where no other handle can reach
    /// it.
    pub(crate) fn advance(&mut self, id: usize)
        requires
            old(self).positions().dom().contains(id as nat),
            old(self).positions()[id as nat] < old(self)@.len(),
        ensures
            final(self)@ == old(self)@,
            final(self).positions() == old(self).positions().insert(
                id as nat,
                old(self).positions()[id as nat] + 1,
            ),
            final(self).holds_what_can_be_reached(),
    {
        let mut store = self.take();
        store.advance(id);
        *self = Chain { store };
    }

    /// Puts a second handle on the chain, at the position of the handle
    /// `id`, and returns its number.
    pub(crate) fn duplicate(&mut self, id: usize) -> (twin: usize)
        requires
            old(self).positions().dom().contains(id as nat),
        ensures
            final(self)@ == old(self)@,
            !old(self).positions().dom().contains(twin as nat),
            final(self).positions() == old(self).positions().insert(
                twin as nat,
                old(self).positions()[id as nat],
            ),
            final(self).first_held() == old(self).first_held(),
            final(self).holds_what_can_be_reached(),
    {
        let mut store = self.take();
        let twin = store.duplicate(id);
        *self = Chain { store };
        twin
    }

    /// Takes the handle `id` off the chain, and gives up the cells that
    /// only this handle could reach.
    pub(crate) fn leave(&mut self, id: usize)
        requires
            old(self).positions().dom().contains(id as nat),
        ensures
            final(self)@ == old(self)@,
            final(self).positions() == old(self).positions().remove(id as nat),
            final(self).holds_what_can_be_reached(),
    {
        let mut store = self.take();
        store.leave(id);
        *self = Chain { store };
    }
}

} // verus!
