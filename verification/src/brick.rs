//! Brick durability tiers and their scoring values.
//!
//! A brick starts at one of four live tiers and loses exactly one tier per
//! qualifying hit, down to `Cleared`; a cleared brick is removed and pays
//! out its fixed score value, which was set once at creation from the
//! initial tier and never changes as durability decays.

use vstd::prelude::*;

verus! {

/// A brick's durability tier: the number of hits still needed to clear it.
/// `Super` takes four hits, `High` three, `Mid` two, `Low` one; `Cleared`
/// marks a brick about to be removed, which no further hit changes.
#[derive(Clone, Copy, PartialEq, Eq, Structural, Debug)]
pub enum BrickLevel {
    Cleared,
    Low,
    Mid,
    High,
    Super,
}

/// How many hits a brick at this tier still absorbs before it clears.
pub open spec fn hits_to_clear(level: BrickLevel) -> nat {
    match level {
        BrickLevel::Cleared => 0,
        BrickLevel::Low => 1,
        BrickLevel::Mid => 2,
        BrickLevel::High => 3,
        BrickLevel::Super => 4,
    }
}

/// The tier after one qualifying hit: one step down, never skipping, and
/// `Cleared` stays `Cleared` (a hit on a cleared brick is a no-op).
pub open spec fn spec_decay(level: BrickLevel) -> BrickLevel {
    match level {
        BrickLevel::Cleared => BrickLevel::Cleared,
        BrickLevel::Low => BrickLevel::Cleared,
        BrickLevel::Mid => BrickLevel::Low,
        BrickLevel::High => BrickLevel::Mid,
        BrickLevel::Super => BrickLevel::High,
    }
}

/// The score a brick of this initial tier pays out when destroyed.
pub open spec fn spec_tier_value(level: BrickLevel) -> u32 {
    match level {
        BrickLevel::Cleared => 0,
        BrickLevel::Low => 1,
        BrickLevel::Mid => 2,
        BrickLevel::High => 3,
        BrickLevel::Super => 5,
    }
}

/// Applies one qualifying hit to a durability tier.
pub fn decay(level: BrickLevel) -> (res: BrickLevel)
    ensures
        res == spec_decay(level),
        hits_to_clear(res) == if hits_to_clear(level) == 0 {
            0
        } else {
            hits_to_clear(level) - 1
        },
{
    match level {
        BrickLevel::Cleared => BrickLevel::Cleared,
        BrickLevel::Low => BrickLevel::Cleared,
        BrickLevel::Mid => BrickLevel::Low,
        BrickLevel::High => BrickLevel::Mid,
        BrickLevel::Super => BrickLevel::High,
    }
}

/// The fixed score value a brick takes from its initial tier at creation.
pub fn tier_value(level: BrickLevel) -> (res: u32)
    ensures
        res == spec_tier_value(level),
{
    match level {
        BrickLevel::Cleared => 0,
        BrickLevel::Low => 1,
        BrickLevel::Mid => 2,
        BrickLevel::High => 3,
        BrickLevel::Super => 5,
    }
}

/// A display color, as red, green and blue channels in thousandths of
/// full intensity.
#[derive(Clone, Copy, PartialEq, Eq, Structural, Debug)]
pub struct TierColor {
    pub red: u16,
    pub green: u16,
    pub blue: u16,
}

/// The display color of each durability tier; a cleared brick keeps the
/// lowest tier's color for the frame before it is removed.
pub open spec fn spec_tier_color(level: BrickLevel) -> TierColor {
    match level {
        BrickLevel::Cleared => TierColor { red: 500, green: 500, blue: 1000 },
        BrickLevel::Low => TierColor { red: 500, green: 500, blue: 1000 },
        BrickLevel::Mid => TierColor { red: 1000, green: 500, blue: 500 },
        BrickLevel::High => TierColor { red: 800, green: 800, blue: 0 },
        BrickLevel::Super => TierColor { red: 400, green: 400, blue: 500 },
    }
}

impl BrickLevel {
    /// The color a brick at this tier is drawn with.
    pub fn get_color(&self) -> (res: TierColor)
        ensures
            res == spec_tier_color(*self),
    {
        match self {
            BrickLevel::Cleared => TierColor { red: 500, green: 500, blue: 1000 },
            BrickLevel::Low => TierColor { red: 500, green: 500, blue: 1000 },
            BrickLevel::Mid => TierColor { red: 1000, green: 500, blue: 500 },
            BrickLevel::High => TierColor { red: 800, green: 800, blue: 0 },
            BrickLevel::Super => TierColor { red: 400, green: 400, blue: 500 },
        }
    }
}

/// The full decay order, from the sturdiest tier down to cleared.
pub open spec fn full_tier_chain() -> Seq<BrickLevel> {
    seq![
        BrickLevel::Super,
        BrickLevel::High,
        BrickLevel::Mid,
        BrickLevel::Low,
        BrickLevel::Cleared,
    ]
}

/// The tiers a brick visits when hit repeatedly from `level` until cleared:
/// `level` itself, then everything `spec_decay` walks through.
pub open spec fn tier_chain(level: BrickLevel) -> Seq<BrickLevel>
    decreases hits_to_clear(level),
{
    if level is Cleared {
        seq![BrickLevel::Cleared]
    } else {
        seq![level] + tier_chain(spec_decay(level))
    }
}

/// Durability never skips a tier and never regresses: starting from any
/// tier, the sequence of durability values a brick visits is exactly a
/// suffix of `[Super, High, Mid, Low, Cleared]`.
pub proof fn lemma_tier_chain_is_suffix(level: BrickLevel)
    ensures
        tier_chain(level) == full_tier_chain().skip(4 - hits_to_clear(level)),
{
    reveal_with_fuel(tier_chain, 5);
    match level {
        BrickLevel::Cleared => {
            assert(tier_chain(level) =~= full_tier_chain().skip(4));
        },
        BrickLevel::Low => {
            assert(tier_chain(level) =~= full_tier_chain().skip(3));
        },
        BrickLevel::Mid => {
            assert(tier_chain(level) =~= full_tier_chain().skip(2));
        },
        BrickLevel::High => {
            assert(tier_chain(level) =~= full_tier_chain().skip(1));
        },
        BrickLevel::Super => {
            assert(tier_chain(level) =~= full_tier_chain().skip(0));
        },
    }
}

} // verus!
