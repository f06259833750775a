//! The life of one handle on a chain that grows while the handle reads it.

use crate::handle::{advanced, unread};
use vstd::prelude::*;

verus! {

/// One step in the life of a chain, as one handle sees it.
pub enum Event<T> {
    /// An item is pushed, through this handle or through any other.
    Push(T),
    /// This handle pulls.
    Pull,
}

/// The chain that `chain` has become after `events`.
pub open spec fn grown<T>(chain: Seq<T>, events: Seq<Event<T>>) -> Seq<T>
    decreases events.len(),
{
    if events.len() == 0 {
        chain
    } else {
        let before = grown(chain, events.drop_last());
        match events.last() {
            Event::Push(item) => before.push(item),
            Event::Pull => before,
        }
    }
}

/// Where a handle stands after `events` that stood at `pos` before them.
pub open spec fn reached<T>(pos: nat, chain: Seq<T>, events: Seq<Event<T>>) -> nat
    decreases events.len(),
{
    if events.len() == 0 {
        pos
    } else {
        let before = reached(pos, chain, events.drop_last());
        match events.last() {
            Event::Push(_) => before,
            Event::Pull => advanced(before, grown(chain, events.drop_last())),
        }
    }
}

/// The items that the pulls among `events` have returned to a handle that
/// stood at `pos` before them, in the order in which it got them.
pub open spec fn received<T>(pos: nat, chain: Seq<T>, events: Seq<Event<T>>) -> Seq<T>
    decreases events.len(),
{
    if events.len() == 0 {
        Seq::empty()
    } else {
        let before = received(pos, chain, events.drop_last());
        match events.last() {
            Event::Push(_) => before,
            Event::Pull => match unread(
                reached(pos, chain, events.drop_last()),
                grown(chain, events.drop_last()),
            ) {
                Some(item) => before.push(item),
                None => before,
            },
        }
    }
}

} // verus!
