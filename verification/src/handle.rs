//! Handles: independent read positions into a chain.
//!
//! A handle is what a producer or a consumer holds. The chain keeps the
//! position of each of its handles, so that it knows which cells can still
//! be reached; the handle itself is the key to its position. The chain is
//! passed to each operation: whoever shares a chain between threads puts it
//! behind a lock and hands the operations what the lock guards.

use crate::chain::Chain;
use std::marker::PhantomData;
use vstd::prelude::*;

verus! {

/// A handle on a broadcast queue: it stands at the next cell that its owner
/// has not consumed yet.
///
/// Any number of handles may stand on one chain, at the same cell or at
/// different ones. Each moves only when its own owner pulls, and only
/// forward. A handle is made together with its chain by [`MultiQueue::new`],
/// or from another handle by [`MultiQueue::clone`], and it is given back with
/// [`MultiQueue::release`]. A handle that is thrown away without being given
/// back keeps its position on the chain, like a consumer that never pulls,
/// and with it every cell from that position on.
pub struct MultiQueue<T> {
    id: usize,
    item: PhantomData<T>,
}

impl<T> View for MultiQueue<T> {
    type V = nat;

    /// The number under which the chain keeps this handle's position.
    closed spec fn view(&self) -> nat {
        self.id as nat
    }
}

/// The item that a handle standing at `pos` has to read next: the item of the
/// cell at `pos`, or `None` where the chain has no cell there yet.
pub open spec fn unread<T>(pos: nat, chain: Seq<T>) -> Option<T> {
    if pos < chain.len() {
        Some(chain[pos as int])
    } else {
        None
    }
}

/// Where a handle that stood at `pos` stands after one pull: one cell
/// further where there was a cell to read, at `pos` where there was none.
pub open spec fn advanced<T>(pos: nat, chain: Seq<T>) -> nat {
    if pos < chain.len() {
        pos + 1
    } else {
        pos
    }
}

/// The items that a handle standing at `pos` has yet to consume, oldest
/// first: the items of the cells from `pos` to the end of the chain.
pub open spec fn pending<T>(pos: nat, chain: Seq<T>) -> Seq<T> {
    if pos <= chain.len() {
        chain.skip(pos as int)
    } else {
        Seq::empty()
    }
}

/// What `n` pulls in a row return to a handle that stands at `pos`, in the
/// order in which they are made.
pub open spec fn pulls<T>(pos: nat, chain: Seq<T>, n: nat) -> Seq<Option<T>>
    decreases n,
{
    if n == 0 {
        Seq::empty()
    } else {
        seq![unread(pos, chain)] + pulls(advanced(pos, chain), chain, (n - 1) as nat)
    }
}

/// Where a handle that stood at `pos` stands after `n` pulls in a row.
pub open spec fn advanced_by<T>(pos: nat, chain: Seq<T>, n: nat) -> nat
    decreases n,
{
    if n == 0 {
        pos
    } else {
        advanced_by(advanced(pos, chain), chain, (n - 1) as nat)
    }
}

/// The answers to `n` pulls in a row where `items` are there to be read and
/// nothing comes after them: each item once, in order, then `None`.
pub open spec fn answers<T>(items: Seq<T>, n: nat) -> Seq<Option<T>> {
    Seq::new(
        n,
        |i: int|
            if i < items.len() {
                Some(items[i])
            } else {
                None
            },
    )
}

impl<T> MultiQueue<T> {
    /// This handle is one of the handles of `chain`: the chain keeps a
    /// position under its number. Every operation of a handle asks for this
    /// and keeps it, and [`MultiQueue::is_on`] tests it.
    pub open spec fn reads(&self, chain: Chain<T>) -> bool {
        chain.positions().dom().contains(self@)
    }

    /// The index of the next cell of `chain` that this handle has to
    /// consume.
    pub open spec fn position_on(&self, chain: Chain<T>) -> nat {
        chain.positions()[self@]
    }

    /// An empty chain and the first handle on it, at its start.
    pub fn new() -> (made: (Self, Chain<T>))
        ensures
            made.0.reads(made.1),
            made.1@ == Seq::<T>::empty(),
            made.1.positions() == Map::<nat, nat>::empty().insert(made.0@, 0),
            made.1.holds_what_can_be_reached(),
    {
        let (chain, id) = Chain::start();
        (MultiQueue { id, item: PhantomData }, chain)
    }

    /// Whether this handle is one of the handles of `chain`.
    pub fn is_on(&self, chain: &Chain<T>) -> (found: bool)
        ensures
            found == self.reads(*chain),
    {
        chain.has(self.id)
    }

    /// The index of the next cell to consume.
    pub fn position(&self, chain: &Chain<T>) -> (pos: usize)
        requires
            self.reads(*chain),
        ensures
            pos == self.position_on(*chain),
            chain.first_held() <= pos <= chain@.len(),
    {
        chain.position(self.id)
    }

    /// Appends `item` to the chain, behind everything appended before it.
    ///
    /// Every handle on the chain reads the item once it has consumed what
    /// lies before it. The cells that the chain held keep their places and
    /// their items, and no handle moves, the pushing one included.
    pub fn push(&mut self, chain: &mut Chain<T>, item: T)
        requires
            old(self).reads(*old(chain)),
            old(chain)@.len() < usize::MAX,
        ensures
            final(self)@ == old(self)@,
            final(self).reads(*final(chain)),
            final(chain)@ == old(chain)@.push(item),
            final(chain).positions() == old(chain).positions(),
            final(chain).first_held() == old(chain).first_held(),
            final(chain).holds_what_can_be_reached(),
    {
        chain.append(item);
    }

    /// A second handle on the chain, at the position of this one. From here
    /// on the two move independently.
    pub fn clone(&self, chain: &mut Chain<T>) -> (twin: Self)
        requires
            self.reads(*old(chain)),
        ensures
            self.reads(*final(chain)),
            twin.reads(*final(chain)),
            !old(chain).positions().dom().contains(twin@),
            final(chain)@ == old(chain)@,
            final(chain).positions() == old(chain).positions().insert(
                twin@,
                self.position_on(*old(chain)),
            ),
            final(chain).first_held() == old(chain).first_held(),
            final(chain).holds_what_can_be_reached(),
    {
        let id = chain.duplicate(self.id);
        MultiQueue { id, item: PhantomData }
    }

    /// Gives the handle back. The chain forgets its position, and gives up
    /// the cells that only this handle could still reach.
    pub fn release(self, chain: &mut Chain<T>)
        requires
            self.reads(*old(chain)),
        ensures
            final(chain)@ == old(chain)@,
            final(chain).positions() == old(chain).positions().remove(self@),
            final(chain).holds_what_can_be_reached(),
    {
        chain.leave(self.id);
    }
}

impl<T: Clone> MultiQueue<T> {
    /// Consumes the next unread item, if the chain holds one.
    ///
    /// Where the cell at the handle's position exists, a clone of its item
    /// is returned and the handle moves on to the following cell; the chain
    /// gives up the cell it leaves once no other handle stands at or before
    /// it. Where the handle has caught up with the chain, `None` is returned
    /// and the handle stays where it is. No other handle moves.
    pub fn pull(&mut self, chain: &mut Chain<T>) -> (item: Option<T>)
        requires
            old(self).reads(*old(chain)),
        ensures
            final(self)@ == old(self)@,
            final(self).reads(*final(chain)),
            final(chain)@ == old(chain)@,
            item.is_some() == unread(old(self).position_on(*old(chain)), old(chain)@).is_some(),
            item.is_some() ==> cloned(
                unread(old(self).position_on(*old(chain)), old(chain)@).unwrap(),
                item.unwrap(),
            ),
            final(chain).positions() == old(chain).positions().insert(
                old(self)@,
                advanced(old(self).position_on(*old(chain)), old(chain)@),
            ),
            final(chain).holds_what_can_be_reached(),
    {
        let item = match chain.unread(self.id) {
            Some(cell) => Some(cell.clone()),
            None => None,
        };
        if item.is_some() {
            chain.advance(self.id);
        } else {
            let _ = chain.held_from();
            proof {
                assert(chain.positions() =~= chain.positions().insert(
                    self@,
                    self.position_on(*chain),
                ));
            }
        }
        item
    }

    /// Consumes everything that the chain holds for this handle and returns
    /// it, oldest first. Afterwards the handle has caught up with the chain.
    pub fn drain(&mut self, chain: &mut Chain<T>) -> (items: Vec<T>)
        requires
            old(self).reads(*old(chain)),
        ensures
            final(self)@ == old(self)@,
            final(self).reads(*final(chain)),
            final(chain)@ == old(chain)@,
            items@.len() == pending(old(self).position_on(*old(chain)), old(chain)@).len(),
            forall|i: int|
                0 <= i < items@.len() ==> cloned(
                    pending(old(self).position_on(*old(chain)), old(chain)@)[i],
                    #[trigger] items@[i],
                ),
            final(chain).positions() == old(chain).positions().insert(
                old(self)@,
                old(chain)@.len(),
            ),
            final(chain).holds_what_can_be_reached(),
    {
        let mut items: Vec<T> = Vec::new();
        let ghost start: nat = self.position_on(*chain);
        let _ = chain.held_from();
        proof {
            assert(chain.positions() =~= old(chain).positions().insert(self@, start));
        }
        loop
            invariant
                self@ == old(self)@,
                self.reads(*chain),
                chain.holds_what_can_be_reached(),
                chain@ == old(chain)@,
                start == old(self).position_on(*old(chain)),
                start + items@.len() <= chain@.len(),
                chain.positions() == old(chain).positions().insert(
                    self@,
                    start + items@.len(),
                ),
                forall|i: int|
                    0 <= i < items@.len() ==> cloned(
                        pending(start, chain@)[i],
                        #[trigger] items@[i],
                    ),
            ensures
                start + items@.len() == chain@.len(),
            decreases chain@.len() - start - items@.len(),
        {
            let ghost before = chain.positions();
            match self.pull(chain) {
                Some(item) => {
                    items.push(item);
                    proof {
                        assert(chain.positions() =~= old(chain).positions().insert(
                            self@,
                            start + items@.len(),
                        ));
                    }
                },
                None => {
                    proof {
                        assert(chain.positions() =~= before);
                    }
                    break ;
                },
            }
        }
        items
    }
}

} // verus!
