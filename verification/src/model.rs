//! The plain data that the front end reads from the vault: character lists,
//! format sequence positions, and the constants of the character-list slots
//! and of the Argon2id floors.

use vstd::prelude::*;

verus! {

/// Lowest bit of a mask that a user-defined character list may occupy; the
/// bits below it belong to the built-in lists.
pub const USER_CHAR_LIST_BIT_MIN: u8 = 16;

/// Highest bit of a mask that a user-defined character list may occupy.
pub const USER_CHAR_LIST_BIT_MAX: u8 = 31;

/// Number of user-defined character-list slots.
pub const USER_CHAR_LIST_SLOT_COUNT: u8 = 16;

/// Smallest Argon2id memory cost (KiB) that the front end applies.
pub const MIN_M_COST_KIB: u32 = 65536;

/// Smallest Argon2id time cost that the front end applies.
pub const MIN_T_COST: u32 = 3;

/// Smallest Argon2id parallelism that the front end applies.
pub const MIN_P_COST: u32 = 4;

/// A character list of a restriction: the mask bit it answers to, its name and
/// its elements.
pub struct CharacterList {
    pub uuid: u128,
    pub bit: u8,
    pub name: String,
    pub elements: Vec<String>,
}

/// One position of a restriction's format sequence: a mask of character lists
/// (mask 0 stands for the restriction's default mask) or a fixed literal.
pub enum MaskOrLiteral {
    Mask(u32),
    Literal(String),
}

/// The abstract value of a sequence position.
pub ghost enum PositionView {
    Mask(u32),
    Literal(Seq<char>),
}

impl MaskOrLiteral {
    pub open spec fn view(&self) -> PositionView {
        match self {
            MaskOrLiteral::Mask(m) => PositionView::Mask(*m),
            MaskOrLiteral::Literal(s) => PositionView::Literal(s@),
        }
    }
}

/// The abstract values of a sequence of positions.
pub open spec fn positions_view(s: Seq<MaskOrLiteral>) -> Seq<PositionView> {
    s.map_values(|p: MaskOrLiteral| p.view())
}

} // verus!
