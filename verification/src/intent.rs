use vstd::prelude::*;

verus! {

/// The ways in which substances can come together.
#[derive(Debug, Clone, Copy, Hash, PartialEq, Eq, Structural)]
pub enum InteractionType {
    Internal,
    Contact,
    Life,
}

/// The kinds of intent a substance can carry.
#[derive(Debug, Clone, Copy, Hash, PartialEq, Eq, Structural)]
pub enum Intent {
    Air,
    Plant,
    Leaf,
    Growth,
    AbsorbAir,
}

/// The number of distinct intents.
pub const INTENT_COUNT: u8 = 5;

/// The small integer under which an intent is stored.
pub open spec fn code(intent: Intent) -> u8 {
    match intent {
        Intent::Air => 0,
        Intent::Plant => 1,
        Intent::Leaf => 2,
        Intent::Growth => 3,
        Intent::AbsorbAir => 4,
    }
}

/// The intent stored under a code below `INTENT_COUNT`.
pub open spec fn intent_of(c: u8) -> Intent {
    if c == 0 {
        Intent::Air
    } else if c == 1 {
        Intent::Plant
    } else if c == 2 {
        Intent::Leaf
    } else if c == 3 {
        Intent::Growth
    } else {
        Intent::AbsorbAir
    }
}

/// Codes identify intents: distinct intents have distinct codes, and every
/// code below `INTENT_COUNT` names exactly one intent.
pub proof fn lemma_code_bijective()
    ensures
        forall|i: Intent| #[trigger] code(i) < INTENT_COUNT && intent_of(code(i)) == i,
        forall|i: Intent, j: Intent| #[trigger] code(i) == #[trigger] code(j) ==> i == j,
        forall|c: u8| c < INTENT_COUNT ==> code(#[trigger] intent_of(c)) == c,
{
}

pub fn intent_code(intent: Intent) -> (c: u8)
    ensures
        c == code(intent),
{
    match intent {
        Intent::Air => 0,
        Intent::Plant => 1,
        Intent::Leaf => 2,
        Intent::Growth => 3,
        Intent::AbsorbAir => 4,
    }
}

pub fn intent_from_code(c: u8) -> (intent: Intent)
    requires
        c < INTENT_COUNT,
    ensures
        intent == intent_of(c),
        code(intent) == c,
{
    if c == 0 {
        Intent::Air
    } else if c == 1 {
        Intent::Plant
    } else if c == 2 {
        Intent::Leaf
    } else if c == 3 {
        Intent::Growth
    } else {
        Intent::AbsorbAir
    }
}

} // verus!
