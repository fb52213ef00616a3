//! Cards and decks, as far as the review log and its statistics read them.

use vstd::prelude::*;

verus! {

#[derive(Debug, Clone, Copy, PartialEq, Eq, PartialOrd, Ord, Hash, Structural)]
pub struct CardId(pub i64);

#[derive(Debug, Clone, Copy, PartialEq, Eq, PartialOrd, Ord, Hash, Structural)]
pub struct DeckId(pub i64);

#[derive(Debug, Clone, Copy, PartialEq, Eq, PartialOrd, Ord, Hash, Structural)]
pub struct DeckConfigId(pub i64);

/// The number under which a row was last changed, for synchronisation.
#[derive(Debug, Clone, Copy, PartialEq, Eq, PartialOrd, Ord, Hash, Structural)]
pub struct Usn(pub i32);

/// The memory state of a card, as far as the review log records it.
#[derive(Debug, Clone, Copy, PartialEq, Eq, Structural)]
pub struct FsrsMemoryState {
    /// The difficulty, shifted so that it runs from 100 to 1100, in thousandths.
    pub difficulty_shifted: u16,
}

#[derive(Debug, Clone, Copy, PartialEq, Eq, Structural)]
pub struct Card {
    pub id: CardId,
    pub deck_id: DeckId,
    /// The deck a card in a filtered deck came from, 0 for a card that is at home.
    pub original_deck_id: DeckId,
    /// In days.
    pub interval: u32,
    /// Stored as 10x the %.
    pub ease_factor: u16,
    pub memory_state: Option<FsrsMemoryState>,
}

#[derive(Debug, Clone, Copy, PartialEq, Eq, Structural)]
pub struct Deck {
    pub id: DeckId,
    /// The preset in use. A filtered deck has none.
    pub config_id: Option<DeckConfigId>,
}

impl Deck {
    pub fn config_id(&self) -> (config_id: Option<DeckConfigId>)
        ensures
            config_id == self.config_id,
    {
        self.config_id
    }
}

} // verus!
