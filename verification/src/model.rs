use vstd::prelude::*;
use crate::intent::{Intent, InteractionType};

verus! {

/// The percentage of the lesser of its leaf intent and the air it touches up
/// to which a leaf draws air.
pub const LEAF_GATHER_PERCENT: i32 = 100;

/// Whether an integer can be held in an `i32`.
pub open spec fn fits(x: int) -> bool {
    i32::MIN <= x <= i32::MAX
}

/// Integer division rounding towards zero, as Rust's `/` does.
pub open spec fn tdiv(a: int, b: int) -> int {
    let q = (if a < 0 { -a } else { a }) / (if b < 0 { -b } else { b });
    if (a < 0) != (b < 0) { -q } else { q }
}

/// The lesser of two integers.
pub open spec fn min(a: int, b: int) -> int {
    if a <= b { a } else { b }
}

/// The greater of two integers.
pub open spec fn max(a: int, b: int) -> int {
    if a >= b { a } else { b }
}

/// What a substance is, seen as mathematics: its mass and the quantity of each
/// intent it records. An intent outside `intents`' domain has never been
/// recorded (or was cleared); its quantity reads as zero.
pub struct SubstanceModel {
    pub mass: int,
    pub intents: Map<Intent, int>,
}

impl SubstanceModel {
    /// The quantity of `intent`, zero where none is recorded.
    pub open spec fn level(self, intent: Intent) -> int {
        if self.intents.contains_key(intent) {
            self.intents[intent]
        } else {
            0
        }
    }

    /// Whether the substance holds a positive quantity of `intent`.
    pub open spec fn has(self, intent: Intent) -> bool {
        self.level(intent) > 0
    }

    /// The same substance with `intent` recorded at `value`.
    pub open spec fn put(self, intent: Intent, value: int) -> SubstanceModel {
        SubstanceModel { mass: self.mass, intents: self.intents.insert(intent, value) }
    }

    /// The same substance with no record of `intent`.
    pub open spec fn without(self, intent: Intent) -> SubstanceModel {
        SubstanceModel { mass: self.mass, intents: self.intents.remove(intent) }
    }

    /// The quantities of all intents taken together.
    pub open spec fn total_intent(self) -> int {
        self.level(Intent::Air) + self.level(Intent::Plant) + self.level(Intent::Leaf)
            + self.level(Intent::Growth) + self.level(Intent::AbsorbAir)
    }

    /// Every quantity, and the mass, can be held in an `i32`.
    pub open spec fn valid(self) -> bool {
        &&& fits(self.mass)
        &&& forall|i: Intent| #[trigger] self.intents.contains_key(i) ==> fits(self.intents[i])
    }
}

/// The mass against which intent is soft-capped: the substance's mass, but at
/// least one.
pub open spec fn soft_cap(mass: int) -> int {
    if mass < 1 { 1 } else { mass }
}

/// The quantity reached by adding `amount` to `value` under the soft cap
/// `cap`. The quantity climbs in brackets of width `cap`; while the quantity
/// lies in bracket `b` (that is, `b * cap <= value < (b + 1) * cap`) each unit
/// gained costs `b + 1` units of `amount`. Whatever is left once the next unit
/// costs more than remains is lost.
pub open spec fn soft_add_level(value: int, amount: int, cap: int) -> int
    decreases amount,
{
    if amount <= 0 || cap < 1 {
        value
    } else {
        let bracket = tdiv(value, cap);
        if bracket >= amount || bracket < 0 {
            value
        } else {
            let space = bracket * cap + cap - value;
            let to_add = min(amount / (bracket + 1), space);
            if to_add <= 0 {
                value
            } else {
                proof {
                    lemma_cost_bounds(amount, bracket, to_add);
                }
                soft_add_level(value + to_add, amount - to_add * (bracket + 1), cap)
            }
        }
    }
}

/// The input needed to raise a quantity from `from` to `to` under the soft
/// cap `cap`: the unit gained at quantity `u` costs one more than the bracket
/// `u` lies in. Stated directly, `soft_add_level(value, amount, cap)` is the
/// largest quantity that `amount` pays for from `value` (see
/// `law_soft_add_is_largest_affordable`).
pub open spec fn climb_cost(from: int, to: int, cap: int) -> int
    decreases to - from,
{
    if to <= from {
        0
    } else {
        tdiv(from, cap) + 1 + climb_cost(from + 1, to, cap)
    }
}

/// Buying `to_add` units at `bracket + 1` each costs at least one and no more
/// than `amount` when `to_add <= amount / (bracket + 1)`.
pub proof fn lemma_cost_bounds(amount: int, bracket: int, to_add: int)
    requires
        amount > 0,
        bracket >= 0,
        1 <= to_add <= amount / (bracket + 1),
    ensures
        1 <= to_add * (bracket + 1) <= amount,
{
    assert(to_add * (bracket + 1) >= 1) by (nonlinear_arith)
        requires
            to_add >= 1,
            bracket >= 0,
    ;
    assert(to_add * (bracket + 1) <= (amount / (bracket + 1)) * (bracket + 1)) by (nonlinear_arith)
        requires
            to_add <= amount / (bracket + 1),
            bracket >= 0,
    ;
    assert((amount / (bracket + 1)) * (bracket + 1) <= amount) by (nonlinear_arith)
        requires
            amount > 0,
            bracket >= 0,
    ;
}

/// Where a quantity above minus the cap lies relative to its bracket.
pub proof fn lemma_bracket(v: int, cap: int)
    requires
        cap >= 1,
        v > -cap,
    ensures
        tdiv(v, cap) >= 0,
        tdiv(v, cap) * cap <= (if v < 0 { 0 } else { v }),
        v < tdiv(v, cap) * cap + cap,
        forall|k: int| 0 <= k && #[trigger] (k * cap) <= v ==> k <= tdiv(v, cap),
{
    if v >= 0 {
        vstd::arithmetic::div_mod::lemma_fundamental_div_mod(v, cap);
        assert(tdiv(v, cap) == v / cap);
        assert(v / cap >= 0) by (nonlinear_arith)
            requires v >= 0, cap >= 1;
        assert(cap * (v / cap) == (v / cap) * cap) by (nonlinear_arith);
        assert forall|k: int| 0 <= k && #[trigger] (k * cap) <= v implies k <= tdiv(v, cap) by {
            assert(k <= v / cap) by (nonlinear_arith)
                requires 0 <= k, k * cap <= v, cap >= 1, v < (v / cap) * cap + cap;
        }
    } else {
        assert((-v) / cap == 0) by (nonlinear_arith)
            requires 0 < -v < cap;
        assert forall|k: int| 0 <= k && #[trigger] (k * cap) <= v implies k <= tdiv(v, cap) by {
            assert(k * cap >= 0) by (nonlinear_arith)
                requires 0 <= k, cap >= 1;
        }
    }
}

/// Subtracting `amount` of `intent`. The amount may not be negative, and a
/// positive amount may not exceed what is held.
pub open spec fn spec_sub(s: SubstanceModel, intent: Intent, amount: int) -> Option<SubstanceModel> {
    if amount < 0 {
        None
    } else if amount == 0 {
        Some(s)
    } else if amount > s.level(intent) {
        None
    } else {
        Some(s.put(intent, s.level(intent) - amount))
    }
}

/// Adding `amount` of `intent` without any cap.
pub open spec fn spec_add_flat(s: SubstanceModel, intent: Intent, amount: int) -> Option<
    SubstanceModel,
> {
    if amount < 0 {
        None
    } else if amount == 0 {
        Some(s)
    } else if !fits(s.level(intent) + amount) {
        None
    } else {
        Some(s.put(intent, s.level(intent) + amount))
    }
}

/// Adding `amount` of `intent` with the substance's mass as a soft cap. The
/// amount may not be negative; a quantity at or below minus the cap cannot
/// take a positive amount, and the result must fit an `i32`.
pub open spec fn spec_add(s: SubstanceModel, intent: Intent, amount: int) -> Option<SubstanceModel> {
    if amount < 0 {
        None
    } else if amount == 0 {
        Some(s)
    } else {
        let cap = soft_cap(s.mass);
        let v = s.level(intent);
        if v <= -cap {
            None
        } else {
            let r = soft_add_level(v, amount, cap);
            if !fits(r) {
                None
            } else {
                Some(s.put(intent, r))
            }
        }
    }
}

/// Changing the quantity of `intent` by `delta`: a negative delta subtracts,
/// a non-negative one adds under the soft cap.
pub open spec fn spec_modify(s: SubstanceModel, intent: Intent, delta: int) -> Option<
    SubstanceModel,
> {
    if delta < 0 {
        spec_sub(s, intent, -delta)
    } else {
        spec_add(s, intent, delta)
    }
}

/// Moving all of `intent` from `from` into `to`, where it is added under
/// `to`'s soft cap.
pub open spec fn spec_push(from: SubstanceModel, intent: Intent, to: SubstanceModel) -> Option<
    (SubstanceModel, SubstanceModel),
> {
    match spec_add(to, intent, from.level(intent)) {
        Some(t) => Some((from.without(intent), t)),
        None => None,
    }
}

/// The two quantities that a combined quantity `total_val` splits into
/// between substances of masses `self_mass` and `other_mass`: the second gets
/// its share by mass, rounded towards zero, and the first the rest. `None`
/// where the masses add to zero or a share does not fit an `i32`.
pub open spec fn balanced_levels(total_val: int, self_mass: int, other_mass: int) -> Option<
    (int, int),
> {
    let total_mass = self_mass + other_mass;
    if total_mass == 0 {
        None
    } else {
        let other_val = tdiv(total_val * other_mass, total_mass);
        let self_val = total_val - other_val;
        if !fits(self_val) || !fits(other_val) {
            None
        } else {
            Some((self_val, other_val))
        }
    }
}

/// Sharing the combined quantity of `intent` between two substances in
/// proportion to their masses, rounding towards the first.
pub open spec fn spec_balance(s: SubstanceModel, intent: Intent, other: SubstanceModel) -> Option<
    (SubstanceModel, SubstanceModel),
> {
    match balanced_levels(s.level(intent) + other.level(intent), s.mass, other.mass) {
        None => None,
        Some((self_val, other_val)) => Some((s.put(intent, self_val), other.put(intent, other_val))),
    }
}

} // verus!

verus! {

/// Taking one unit each of `a` and `b` to add two of `into` under the soft
/// cap.
pub open spec fn spec_react(s: SubstanceModel, a: Intent, b: Intent, into: Intent) -> Option<
    SubstanceModel,
> {
    match spec_sub(s, a, 1) {
        None => None,
        Some(s1) => match spec_sub(s1, b, 1) {
            None => None,
            Some(s2) => spec_add(s2, into, 2),
        },
    }
}

/// Where `source` is recorded, part of it turns into `dest` whenever `dest`
/// falls short of `target_percent` percent of `source`: the shortfall's
/// `speed_percent` percent, but at least one unit, moves across uncapped.
pub open spec fn spec_becomes(
    s: SubstanceModel,
    source: Intent,
    dest: Intent,
    target_percent: int,
    speed_percent: int,
) -> Option<SubstanceModel> {
    if !s.intents.contains_key(source) {
        Some(s)
    } else {
        let target_val = tdiv(s.intents[source] * target_percent, 100);
        let dest_val = s.level(dest);
        if dest_val < target_val {
            let delta = max(1, tdiv((target_val - dest_val) * speed_percent, 100));
            match spec_sub(s, source, delta) {
                None => None,
                Some(s1) => spec_add_flat(s1, dest, delta),
            }
        } else {
            Some(s)
        }
    }
}

/// Whether `spec_becomes` moves anything.
pub open spec fn becomes_fires(
    s: SubstanceModel,
    source: Intent,
    dest: Intent,
    target_percent: int,
) -> bool {
    s.intents.contains_key(source) && s.level(dest) < tdiv(
        s.intents[source] * target_percent,
        100,
    )
}

/// When both `a` and `b` are held, one unit of each reacts into `into`.
pub open spec fn spec_merge_one(s: SubstanceModel, a: Intent, b: Intent, into: Intent) -> Option<
    SubstanceModel,
> {
    if s.has(a) && s.has(b) {
        spec_react(s, a, b, into)
    } else {
        Some(s)
    }
}

/// When `into` falls short of `percent` percent of the lesser of `a` and `b`,
/// one unit of each reacts into `into`.
pub open spec fn spec_merges(
    s: SubstanceModel,
    a: Intent,
    b: Intent,
    into: Intent,
    percent: int,
) -> Option<SubstanceModel> {
    if merges_fires(s, a, b, into, percent) {
        spec_react(s, a, b, into)
    } else {
        Some(s)
    }
}

pub open spec fn merges_fires(
    s: SubstanceModel,
    a: Intent,
    b: Intent,
    into: Intent,
    percent: int,
) -> bool {
    s.level(into) < tdiv(min(s.level(a), s.level(b)) * percent, 100)
}

/// The reactions a substance undergoes on its own, in order: plant intent
/// becomes leaf and growth intent, leaf and air make plant intent, and leaf
/// and growth make intent to absorb air.
pub open spec fn spec_internal_interaction(s: SubstanceModel) -> Option<SubstanceModel> {
    match spec_becomes(s, Intent::Plant, Intent::Leaf, 5, 10) {
        None => None,
        Some(s1) => match spec_becomes(s1, Intent::Plant, Intent::Growth, 2, 10) {
            None => None,
            Some(s2) => match spec_merge_one(s2, Intent::Leaf, Intent::Air, Intent::Plant) {
                None => None,
                Some(s3) => spec_merges(s3, Intent::Leaf, Intent::Growth, Intent::AbsorbAir, 90),
            },
        },
    }
}

} // verus!

verus! {

/// How much of a quantity `held` goes with a fragment of mass `fragment_mass`
/// split from a substance of mass `whole_mass`: its share by mass, rounded
/// towards zero; but a quantity above two always sends at least one unit and
/// keeps at least one.
pub open spec fn fragment_share(held: int, fragment_mass: int, whole_mass: int) -> int {
    let d = tdiv(held * fragment_mass, whole_mass);
    if held > 2 {
        min(held - 1, max(1, d))
    } else {
        d
    }
}

/// The share of a quantity a fragment takes stays within the quantity:
/// between zero and it, and where positive it leaves at least one unit.
pub proof fn lemma_share_bounds(held: int, fragment_mass: int, whole_mass: int)
    requires
        0 < fragment_mass < whole_mass,
    ensures
        held >= 0 ==> 0 <= fragment_share(held, fragment_mass, whole_mass) <= held,
        held < 0 ==> held <= fragment_share(held, fragment_mass, whole_mass) <= 0,
        fragment_share(held, fragment_mass, whole_mass) > 0 ==> 1 <= held
            - fragment_share(held, fragment_mass, whole_mass),
{
    let p = held * fragment_mass;
    if held >= 0 {
        assert(0 <= p <= held * whole_mass) by (nonlinear_arith)
            requires held >= 0, 0 < fragment_mass < whole_mass, p == held * fragment_mass;
        assert(0 <= p / whole_mass <= held) by (nonlinear_arith)
            requires 0 <= p <= held * whole_mass, whole_mass > 0;
        if 0 < held <= 2 {
            assert(p < held * whole_mass) by (nonlinear_arith)
                requires held > 0, fragment_mass < whole_mass, p == held * fragment_mass;
            assert(p / whole_mass < held) by (nonlinear_arith)
                requires 0 <= p < held * whole_mass, whole_mass > 0;
        }
    } else {
        let n = -held;
        assert(0 < n * fragment_mass <= n * whole_mass) by (nonlinear_arith)
            requires n > 0, 0 < fragment_mass < whole_mass;
        assert(-p == n * fragment_mass) by (nonlinear_arith)
            requires p == held * fragment_mass, n == -held;
        assert(0 <= (n * fragment_mass) / whole_mass <= n) by (nonlinear_arith)
            requires 0 < n * fragment_mass <= n * whole_mass, whole_mass > 0;
    }
}

/// What stays behind when a fragment of mass `fragment_mass` splits off: the
/// remaining mass, and every recorded intent less the fragment's positive
/// share.
pub open spec fn fragment_remainder(s: SubstanceModel, fragment_mass: int) -> SubstanceModel {
    SubstanceModel {
        mass: s.mass - fragment_mass,
        intents: Map::new(
            |i: Intent| s.intents.contains_key(i),
            |i: Intent|
                {
                    let d = fragment_share(s.intents[i], fragment_mass, s.mass);
                    if d > 0 {
                        s.intents[i] - d
                    } else {
                        s.intents[i]
                    }
                },
        ),
    }
}

/// The fragment of mass `fragment_mass` that splits off: each recorded
/// intent whose share is positive, at that share.
pub open spec fn fragment_piece(s: SubstanceModel, fragment_mass: int) -> SubstanceModel {
    SubstanceModel {
        mass: fragment_mass,
        intents: Map::new(
            |i: Intent|
                s.intents.contains_key(i) && fragment_share(s.intents[i], fragment_mass, s.mass) > 0,
            |i: Intent| fragment_share(s.intents[i], fragment_mass, s.mass),
        ),
    }
}

/// The union of two substances: masses add, and so do the quantities of every
/// intent either records.
pub open spec fn combined(s: SubstanceModel, add: SubstanceModel) -> SubstanceModel {
    SubstanceModel {
        mass: s.mass + add.mass,
        intents: Map::new(
            |i: Intent| s.intents.contains_key(i) || add.intents.contains_key(i),
            |i: Intent| s.level(i) + add.level(i),
        ),
    }
}

/// Whether the union of two substances can be held in `i32`s.
pub open spec fn combined_fits(s: SubstanceModel, add: SubstanceModel) -> bool {
    &&& fits(s.mass + add.mass)
    &&& forall|i: Intent| #[trigger] add.intents.contains_key(i) ==> fits(s.level(i) + add.intents[i])
}

/// `a`'s intent to absorb air takes mass from `b`'s air into `out`: as many
/// units as `a`'s absorbing intent, `b`'s air, and `b`'s mass less one allow.
/// Both intents are spent by that many units, and a fragment of that mass
/// splits off `b` into `out`.
pub open spec fn spec_absorb(a: SubstanceModel, b: SubstanceModel, out: SubstanceModel) -> Option<
    (SubstanceModel, SubstanceModel, SubstanceModel),
> {
    if a.has(Intent::AbsorbAir) && b.has(Intent::Air) && 1 < b.mass {
        let delta = min(min(a.level(Intent::AbsorbAir), b.level(Intent::Air)), b.mass - 1);
        let a1 = a.put(Intent::AbsorbAir, a.level(Intent::AbsorbAir) - delta);
        let b1 = b.put(Intent::Air, b.level(Intent::Air) - delta);
        let piece = fragment_piece(b1, delta);
        if combined_fits(out, piece) {
            Some((a1, fragment_remainder(b1, delta), combined(out, piece)))
        } else {
            None
        }
    } else {
        Some((a, b, out))
    }
}

/// A leaf draws air: when `leaf` (holding `leaf_level` of leaf intent and
/// `own_air` of air) touches `source` (holding `source_air` of air), air
/// moves from `source` until `leaf`'s air would reach the lesser of its leaf
/// intent and the source's air. The moved air is subtracted from `source`
/// and added to `leaf` under its soft cap.
pub open spec fn spec_gather(
    leaf: SubstanceModel,
    source: SubstanceModel,
    leaf_level: int,
    source_air: int,
    own_air: int,
) -> Option<(SubstanceModel, SubstanceModel)> {
    if 0 < leaf_level && 0 < source_air {
        let target = tdiv(min(leaf_level, source_air) * LEAF_GATHER_PERCENT, 100);
        let delta = target - own_air;
        if 0 < delta {
            match spec_sub(source, Intent::Air, delta) {
                None => None,
                Some(source1) => match spec_add(leaf, Intent::Air, delta) {
                    None => None,
                    Some(leaf1) => Some((leaf1, source1)),
                },
            }
        } else {
            Some((leaf, source))
        }
    } else {
        Some((leaf, source))
    }
}

/// Both substances draw air through their leaf intent, each against the
/// quantities as they stood before either drew.
pub open spec fn spec_gather_both(a: SubstanceModel, b: SubstanceModel) -> Option<
    (SubstanceModel, SubstanceModel),
> {
    let a_leaf = a.level(Intent::Leaf);
    let b_leaf = b.level(Intent::Leaf);
    let a_air = a.level(Intent::Air);
    let b_air = b.level(Intent::Air);
    match spec_gather(a, b, a_leaf, b_air, a_air) {
        None => None,
        Some((a1, b1)) => match spec_gather(b1, a1, b_leaf, a_air, b_air) {
            None => None,
            Some((b2, a2)) => Some((a2, b2)),
        },
    }
}

/// An interaction between `a` and `b`, with `out` receiving any matter that
/// is absorbed. Only contact does anything: with somewhere to put it, each
/// side absorbs air from the other (first `a` from `b`, then `b` from `a`),
/// and then both draw air through their leaf intent.
pub open spec fn spec_interaction(
    interaction_type: InteractionType,
    a: SubstanceModel,
    b: SubstanceModel,
    out: Option<SubstanceModel>,
) -> Option<(SubstanceModel, SubstanceModel, Option<SubstanceModel>)> {
    if interaction_type != InteractionType::Contact {
        Some((a, b, out))
    } else {
        let absorbed = match out {
            None => Some((a, b, None::<SubstanceModel>)),
            Some(o) => match spec_absorb(a, b, o) {
                None => None,
                Some((a1, b1, o1)) => match spec_absorb(b1, a1, o1) {
                    None => None,
                    Some((b2, a2, o2)) => Some((a2, b2, Some(o2))),
                },
            },
        };
        match absorbed {
            None => None,
            Some((a3, b3, o3)) => match spec_gather_both(a3, b3) {
                None => None,
                Some((a4, b4)) => Some((a4, b4, o3)),
            },
        }
    }
}

} // verus!

verus! {

/// A substance of no mass that carries no intent.
pub open spec fn empty_substance() -> SubstanceModel {
    SubstanceModel { mass: 0, intents: Map::empty() }
}

/// One tick of a plant's stem with its leaf in place: the leaf touches the
/// air and keeps whatever matter it absorbs, its plant intent flows to the
/// stem, the two balance their leaf intent by mass, and the leaf then reacts
/// within itself. Gives the new stem, leaf and air.
pub open spec fn spec_tend_leaf(
    stem: SubstanceModel,
    leaf: SubstanceModel,
    air: SubstanceModel,
) -> Option<(SubstanceModel, SubstanceModel, SubstanceModel)> {
    match spec_interaction(InteractionType::Contact, leaf, air, Some(empty_substance())) {
        None => None,
        Some((leaf1, air1, absorbed)) => match absorbed {
            None => None,
            Some(gained) => if !combined_fits(leaf1, gained) {
                None
            } else {
                match spec_push(combined(leaf1, gained), Intent::Plant, stem) {
                    None => None,
                    Some((leaf2, stem1)) => match spec_balance(stem1, Intent::Leaf, leaf2) {
                        None => None,
                        Some((stem2, leaf3)) => match spec_internal_interaction(leaf3) {
                            None => None,
                            Some(leaf4) => Some((stem2, leaf4, air1)),
                        },
                    },
                }
            },
        },
    }
}

/// A stem without a leaf tries to grow one: touching the air, it absorbs
/// matter into a new substance. Where that gathers any mass, the stem's air
/// and growth intent move into it and it becomes the leaf. Gives the new
/// stem and air, and the leaf if one grew.
pub open spec fn spec_sprout_leaf(stem: SubstanceModel, air: SubstanceModel) -> Option<
    (SubstanceModel, SubstanceModel, Option<SubstanceModel>),
> {
    match spec_interaction(InteractionType::Contact, stem, air, Some(empty_substance())) {
        None => None,
        Some((stem1, air1, absorbed)) => match absorbed {
            None => None,
            Some(gathered) => if gathered.mass <= 0 {
                Some((stem1, air1, None))
            } else {
                match spec_push(stem1, Intent::Air, gathered) {
                    None => None,
                    Some((stem2, leaf1)) => match spec_push(stem2, Intent::Growth, leaf1) {
                        None => None,
                        Some((stem3, leaf2)) => Some((stem3, air1, Some(leaf2))),
                    },
                }
            },
        },
    }
}

} // verus!

verus! {

/// What a stem's tick did, seen as mathematics.
pub enum StemTick {
    /// The stem tried to sprout a leaf but gathered no mass; only its own
    /// reactions and any air it drew remain.
    Rested,
    /// The stem's leaf is gone, so the stem forgets it.
    Unlinked,
    /// The stem tended its leaf.
    Tended,
    /// The stem grew this new leaf.
    Sprouted(SubstanceModel),
}

/// One tick of a plant's stem. The stem first reacts within itself. Then:
/// where its leaf is present (`leaf` is `Some`), it tends that leaf; where it
/// has a leaf that is gone (`linked` but no `leaf`), it forgets the leaf;
/// and if and only if it has no leaf, it touches the air to sprout one. Gives the new stem, leaf (where one was given)
/// and air, and what happened.
pub open spec fn spec_stem_tick(
    stem: SubstanceModel,
    leaf: Option<SubstanceModel>,
    linked: bool,
    air: SubstanceModel,
) -> Option<(SubstanceModel, Option<SubstanceModel>, SubstanceModel, StemTick)> {
    match spec_internal_interaction(stem) {
        None => None,
        Some(stem1) => match leaf {
            Some(l) => match spec_tend_leaf(stem1, l, air) {
                None => None,
                Some((stem2, l2, air2)) => Some((stem2, Some(l2), air2, StemTick::Tended)),
            },
            None => if linked {
                Some((stem1, None, air, StemTick::Unlinked))
            } else {
                match spec_sprout_leaf(stem1, air) {
                    None => None,
                    Some((stem2, air2, sprouted)) => match sprouted {
                        None => Some((stem2, None, air2, StemTick::Rested)),
                        Some(new_leaf) => Some((stem2, None, air2, StemTick::Sprouted(new_leaf))),
                    },
                }
            },
        },
    }
}

} // verus!
