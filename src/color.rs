use vstd::prelude::*;

verus! {

/// Number of red levels; the red component is `red / RED_LEVELS`.
pub const RED_LEVELS: u64 = 23;

/// Number of green levels; the green component is `green / GREEN_LEVELS`.
pub const GREEN_LEVELS: u64 = 27;

/// Number of blue levels; the blue component is `blue / BLUE_LEVELS`.
pub const BLUE_LEVELS: u64 = 39;

/// An RGB color in [0, 1]^3, each component held as a numerator over its
/// fixed number of levels.
#[derive(Clone, Copy, Debug, PartialEq, Eq, Structural)]
pub struct PlayerColor {
    pub red: u64,
    pub green: u64,
    pub blue: u64,
}

impl PlayerColor {
    /// Every component lies below its number of levels, so each fraction is in [0, 1).
    pub open spec fn wf(self) -> bool {
        self.red < RED_LEVELS && self.green < GREEN_LEVELS && self.blue < BLUE_LEVELS
    }
}

/// The color that belongs to a client: a cheap modulo hash of its id.
pub open spec fn color_of(client_id: u64) -> PlayerColor {
    PlayerColor {
        red: client_id % RED_LEVELS,
        green: client_id % GREEN_LEVELS,
        blue: client_id % BLUE_LEVELS,
    }
}

/// Derives the color of the player owned by `client_id`.
pub fn derive_color(client_id: u64) -> (r: PlayerColor)
    ensures
        r == color_of(client_id),
        r.wf(),
{
    PlayerColor {
        red: client_id % RED_LEVELS,
        green: client_id % GREEN_LEVELS,
        blue: client_id % BLUE_LEVELS,
    }
}

/// The color derivation is a pure function of the id: two derivations from
/// equal ids give equal colors, and every derived color is in range.
pub proof fn lemma_color_is_pure(a: u64, b: u64)
    requires
        a == b,
    ensures
        color_of(a) == color_of(b),
        color_of(a).wf(),
{
}

} // verus!
