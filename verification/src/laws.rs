//! What holds of every chain and every handle, whatever is pushed and
//! pulled.

use crate::chain::{is_lowest, Chain};
use crate::handle::{advanced, advanced_by, answers, pending, pulls, unread};
use crate::history::{grown, reached, received, Event};
use vstd::prelude::*;

verus! {

/// Successive pulls walk the chain cell by cell: the pull number `i` of a
/// handle that stood at `pos` returns what is unread at `pos + i`, so no cell
/// is skipped and none is returned twice. The handle ends where the pulls
/// ran out of cells, or `n` cells further if they did not.
pub proof fn lemma_pulls_walk_the_chain<T>(pos: nat, chain: Seq<T>, n: nat)
    ensures
        pulls(pos, chain, n).len() == n,
        forall|i: int| 0 <= i < n ==> #[trigger] pulls(pos, chain, n)[i] == unread((pos + i) as nat, chain),
        pos + n <= chain.len() ==> advanced_by(pos, chain, n) == pos + n,
        pos <= chain.len() < pos + n ==> advanced_by(pos, chain, n) == chain.len(),
        chain.len() < pos ==> advanced_by(pos, chain, n) == pos,
    decreases n,
{
    if n > 0 {
        let rest = (n - 1) as nat;
        let after = advanced(pos, chain);
        lemma_pulls_walk_the_chain(after, chain, rest);
        assert forall|i: int| 0 <= i < n implies #[trigger] pulls(pos, chain, n)[i] == unread(
            (pos + i) as nat,
            chain,
        ) by {
            if i > 0 {
                assert(pulls(pos, chain, n)[i] == pulls(after, chain, rest)[i - 1]);
            }
        }
    }
}

/// First in, first out. Let a handle stand at `pos` with nothing left to
/// read on a chain, as a new handle does on its empty chain, and let a
/// duplicate of it stand at `twin`. After `items` have been pushed, in that
/// order and through whichever handles, the pulls of either handle return
/// exactly those items in the order pushed, and `None` from then on.
pub proof fn law_pushed_items_come_out_in_order<T>(
    pos: nat,
    twin: nat,
    chain: Seq<T>,
    items: Seq<T>,
    n: nat,
)
    requires
        pos == chain.len(),
        twin == pos,
    ensures
        pulls(pos, chain + items, n) == answers(items, n),
        pulls(twin, chain + items, n) == pulls(pos, chain + items, n),
        n >= items.len() ==> advanced_by(pos, chain + items, n) == (chain + items).len(),
{
    lemma_pulls_walk_the_chain(pos, chain + items, n);
    assert(pulls(pos, chain + items, n) =~= answers(items, n));
}

/// Fan-out. Two handles at one position, `pos` and `twin`, as a handle and
/// its duplicate are, read the same thing from then on: whatever the chain held for them at that
/// moment, followed by whatever is pushed later, in one and the same order,
/// and `None` once that is consumed.
pub proof fn law_duplicates_read_the_same<T>(
    pos: nat,
    twin: nat,
    chain: Seq<T>,
    later: Seq<T>,
    n: nat,
)
    requires
        pos <= chain.len(),
        twin == pos,
    ensures
        pulls(twin, chain + later, n) == pulls(pos, chain + later, n),
        pulls(pos, chain + later, n) == answers(pending(pos, chain) + later, n),
{
    lemma_pulls_walk_the_chain(pos, chain + later, n);
    assert(pulls(pos, chain + later, n) =~= answers(pending(pos, chain) + later, n));
}

/// A handle that has caught up with its chain, at `pos`, gets `None` from
/// every pull, however often it asks, and does not move.
pub proof fn law_pull_at_the_end_changes_nothing<T>(pos: nat, chain: Seq<T>, n: nat)
    requires
        unread(pos, chain).is_none(),
    ensures
        pulls(pos, chain, n) == answers(Seq::<T>::empty(), n),
        advanced_by(pos, chain, n) == pos,
{
    lemma_pulls_walk_the_chain(pos, chain, n);
    assert(pulls(pos, chain, n) =~= answers(Seq::<T>::empty(), n));
}

/// What a handle has been given stays given: when the chain grows, the pulls
/// that found a cell before return the same items as before.
pub proof fn law_growth_keeps_what_was_read<T>(
    pos: nat,
    chain: Seq<T>,
    later: Seq<T>,
    n: nat,
)
    ensures
        forall|i: int|
            0 <= i < n && pulls(pos, chain, n)[i].is_some() ==> #[trigger] pulls(
                pos,
                chain + later,
                n,
            )[i] == pulls(pos, chain, n)[i],
{
    lemma_pulls_walk_the_chain(pos, chain, n);
    lemma_pulls_walk_the_chain(pos, chain + later, n);
}

/// A handle never goes back: pulls only move it forward, and only as far
/// as the chain reaches.
pub proof fn law_handles_only_move_forward<T>(pos: nat, chain: Seq<T>, n: nat)
    ensures
        pos <= advanced_by(pos, chain, n) <= pos + n,
        pos <= chain.len() ==> advanced_by(pos, chain, n) <= chain.len(),
{
    lemma_pulls_walk_the_chain(pos, chain, n);
}

/// The cells that a handle has passed are out of its reach. Take away the
/// first `passed` cells of a chain, all of which the handle has consumed:
/// counted from the new start, its pulls return exactly what they would have
/// returned on the whole chain, and leave it at the same cell. So nothing
/// that a handle does depends on a cell that it has passed, and a cell that
/// every handle has passed is read by none of them again, nor by a duplicate
/// made of any of them from then on.
pub proof fn law_passed_cells_are_out_of_reach<T>(
    pos: nat,
    chain: Seq<T>,
    passed: nat,
    n: nat,
)
    requires
        passed <= pos <= chain.len(),
    ensures
        pulls(pos, chain, n) == pulls((pos - passed) as nat, chain.skip(passed as int), n),
        advanced_by(pos, chain, n) == advanced_by(
            (pos - passed) as nat,
            chain.skip(passed as int),
            n,
        ) + passed,
{
    let rest = chain.skip(passed as int);
    let shifted = (pos - passed) as nat;
    lemma_pulls_walk_the_chain(pos, chain, n);
    lemma_pulls_walk_the_chain(shifted, rest, n);
    assert(pulls(pos, chain, n) =~= pulls(shifted, rest, n));
}

/// Every item once, in the order of the chain. However pushes and pulls
/// follow one another, what a handle has been given so far is exactly what
/// the chain holds between the cell where the handle started and the cell
/// where it stands now: no item is skipped, none comes twice, none comes
/// out of order.
pub proof fn law_received_items_follow_the_chain<T>(
    pos: nat,
    chain: Seq<T>,
    events: Seq<Event<T>>,
)
    requires
        pos <= chain.len(),
    ensures
        pos <= reached(pos, chain, events) <= grown(chain, events).len(),
        received(pos, chain, events) == grown(chain, events).subrange(
            pos as int,
            reached(pos, chain, events) as int,
        ),
    decreases events.len(),
{
    if events.len() == 0 {
        assert(received(pos, chain, events) =~= chain.subrange(pos as int, pos as int));
    } else {
        let earlier = events.drop_last();
        law_received_items_follow_the_chain(pos, chain, earlier);
        assert(received(pos, chain, events) =~= grown(chain, events).subrange(
            pos as int,
            reached(pos, chain, events) as int,
        ));
    }
}

/// The order of the chain is the order for everyone. Let two handles start
/// at one position, as a handle and its duplicate do, and let each pull
/// whenever it likes while items are being pushed. If they look at the same
/// chain in the end and both have caught up with it, they have been given the
/// same items in the same order: all that was pending where they started.
pub proof fn law_handles_agree_whenever_they_pull<T>(
    pos: nat,
    twin: nat,
    chain: Seq<T>,
    ours: Seq<Event<T>>,
    theirs: Seq<Event<T>>,
)
    requires
        pos <= chain.len(),
        twin == pos,
        grown(chain, ours) == grown(chain, theirs),
        reached(pos, chain, ours) == grown(chain, ours).len(),
        reached(twin, chain, theirs) == grown(chain, theirs).len(),
    ensures
        received(pos, chain, ours) == received(twin, chain, theirs),
        received(pos, chain, ours) == pending(pos, grown(chain, ours)),
{
    law_received_items_follow_the_chain(pos, chain, ours);
    law_received_items_follow_the_chain(twin, chain, theirs);
    assert(received(pos, chain, ours) =~= pending(pos, grown(chain, ours)));
}

/// What a chain has given up, no handle misses: the pulls of each of its
/// handles return what they would return if no cell had ever been given up,
/// and they can be answered from the cells that the chain still holds.
pub proof fn law_given_up_cells_are_not_missed<T>(chain: Chain<T>, id: nat, n: nat)
    requires
        chain.holds_what_can_be_reached(),
        chain.positions().dom().contains(id),
    ensures
        pulls(chain.positions()[id], chain@, n) == pulls(
            (chain.positions()[id] - chain.first_held()) as nat,
            chain@.skip(chain.first_held() as int),
            n,
        ),
{
    law_passed_cells_are_out_of_reach(chain.positions()[id], chain@, chain.first_held(), n);
}

/// There is one lowest position and no other.
pub proof fn law_lowest_is_unique(positions: Map<nat, nat>, end: nat, first: nat, other: nat)
    requires
        is_lowest(positions, end, first),
        is_lowest(positions, end, other),
    ensures
        first == other,
{
}

/// A chain holds every cell that one of its handles can still reach: the
/// cell at which a handle stands, and all that follow it, are there to be
/// read. Every chain that the library makes or changes holds what can be
/// reached.
pub proof fn law_reachable_cells_are_held<T>(chain: Chain<T>, id: nat, index: nat)
    requires
        chain.holds_what_can_be_reached(),
        chain.positions().dom().contains(id),
        chain.positions()[id] <= index < chain@.len(),
    ensures
        chain.first_held() <= index,
{
}

/// A chain holds no cell that every handle has passed: once each handle on
/// the chain stands past the cell at `index`, the chain has given that cell
/// up. The same goes for every cell of a chain that has no handle left.
pub proof fn law_passed_cells_are_given_up<T>(chain: Chain<T>, index: nat)
    requires
        chain.holds_what_can_be_reached(),
        index < chain@.len(),
        forall|id: nat| chain.positions().dom().contains(id) ==> index < #[trigger] chain.positions()[id],
    ensures
        index < chain.first_held(),
{
}

} // verus!
