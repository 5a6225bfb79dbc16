//! Contact cards found in the local store.
use crate::time::Timestamp;
use vstd::prelude::*;

verus! {

/// A card of the local store: its name (the file stem) and when it was last
/// modified.
#[derive(Debug)]
pub struct Card {
    pub name: String,
    pub date: Timestamp,
}

/// The record set keyed by name; of two cards with one name the later wins.
pub open spec fn local_map(cards: Seq<Card>) -> Map<Seq<char>, Timestamp>
    decreases cards.len(),
{
    if cards.len() == 0 {
        Map::empty()
    } else {
        local_map(cards.drop_last()).insert(cards.last().name@, cards.last().date)
    }
}

/// Every card carries a valid instant.
pub open spec fn dates_wf(cards: Seq<Card>) -> bool {
    forall|i: int| 0 <= i < cards.len() ==> (#[trigger] cards[i]).date.wf()
}

} // verus!
