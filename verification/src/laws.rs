use vstd::prelude::*;
use crate::intent::Intent;
use crate::intent::InteractionType;
use crate::model::{
    SubstanceModel, tdiv, min, soft_add_level, soft_cap, lemma_cost_bounds, lemma_bracket,
    fragment_remainder, fragment_piece, combined, combined_fits, spec_balance, spec_sub,
    spec_react, spec_becomes, spec_merge_one, spec_merges, spec_internal_interaction,
    spec_interaction, spec_push, spec_tend_leaf, spec_sprout_leaf, empty_substance, spec_add,
    climb_cost, spec_stem_tick, spec_absorb, lemma_share_bounds, StemTick,
};

verus! {

/// Adding under the soft cap never lowers a quantity, and never raises it by
/// more than the amount added.
pub proof fn law_soft_add_bounded(value: int, amount: int, cap: int)
    requires
        cap >= 1,
        value > -cap,
        amount >= 0,
    ensures
        value <= soft_add_level(value, amount, cap) <= value + amount,
    decreases amount,
{
    if amount > 0 {
        let bracket = tdiv(value, cap);
        lemma_bracket(value, cap);
        if bracket < amount {
            let space = bracket * cap + cap - value;
            let to_add = min(amount / (bracket + 1), space);
            if to_add > 0 {
                lemma_cost_bounds(amount, bracket, to_add);
                assert(to_add <= to_add * (bracket + 1)) by (nonlinear_arith)
                    requires to_add >= 1, bracket >= 0;
                law_soft_add_bounded(value + to_add, amount - to_add * (bracket + 1), cap);
            }
        }
    }
}

/// Below the cap intent is added in full: where the quantity stays within
/// the first bracket, every unit of the amount arrives.
pub proof fn law_soft_add_exact_within_cap(value: int, amount: int, cap: int)
    requires
        cap >= 1,
        0 <= value,
        0 <= amount,
        value + amount <= cap,
    ensures
        soft_add_level(value, amount, cap) == value + amount,
{
    if amount > 0 {
        lemma_bracket(value, cap);
        assert(value < cap);
        assert(tdiv(value, cap) == 0) by (nonlinear_arith)
            requires 0 <= value < cap, tdiv(value, cap) == value / cap;
        assert(soft_add_level(value + amount, 0, cap) == value + amount);
    }
}

/// The further a quantity climbs, the more input each unit costs: once the
/// quantity has reached `k` times the cap, adding `amount` raises it by at
/// most `amount / (k + 1)`.
pub proof fn law_soft_add_costs_rise(value: int, amount: int, cap: int, k: int)
    requires
        cap >= 1,
        k >= 0,
        k * cap <= value,
        amount >= 0,
    ensures
        soft_add_level(value, amount, cap) - value <= amount / (k + 1),
    decreases amount,
{
    assert(amount / (k + 1) >= 0) by (nonlinear_arith)
        requires amount >= 0, k >= 0;
    assert(k * cap >= 0) by (nonlinear_arith)
        requires k >= 0, cap >= 1;
    if amount > 0 {
        let bracket = tdiv(value, cap);
        lemma_bracket(value, cap);
        assert(k <= bracket);
        if bracket < amount {
            let space = bracket * cap + cap - value;
            let to_add = min(amount / (bracket + 1), space);
            if to_add > 0 {
                lemma_cost_bounds(amount, bracket, to_add);
                let rest = amount - to_add * (bracket + 1);
                law_soft_add_costs_rise(value + to_add, rest, cap, k);
                assert(rest <= amount - to_add * (k + 1)) by (nonlinear_arith)
                    requires rest == amount - to_add * (bracket + 1), to_add >= 1, k <= bracket;
                assert(rest / (k + 1) <= (amount - to_add * (k + 1)) / (k + 1)) by (nonlinear_arith)
                    requires rest <= amount - to_add * (k + 1), k >= 0, rest >= 0;
                assert((amount - to_add * (k + 1)) / (k + 1) == amount / (k + 1) - to_add)
                    by (nonlinear_arith)
                    requires k >= 0;
            }
        }
    }
}

/// Splitting conserves: the remainder and the fragment together have the
/// whole substance's mass and, for every intent, its quantity; and the
/// fragment carries no intent the whole substance did not record.
pub proof fn law_fragment_conserves(s: SubstanceModel, fragment_mass: int)
    requires
        0 < fragment_mass < s.mass,
    ensures
        fragment_remainder(s, fragment_mass).mass + fragment_piece(s, fragment_mass).mass == s.mass,
        forall|i: Intent|
            #[trigger] fragment_remainder(s, fragment_mass).level(i) + fragment_piece(
                s,
                fragment_mass,
            ).level(i) == s.level(i),
        forall|i: Intent| #[trigger]
            fragment_piece(s, fragment_mass).intents.contains_key(i) ==> s.intents.contains_key(i),
{
}

/// Merging a fragment back into what remains of its substance restores the
/// substance exactly.
pub proof fn law_fragment_then_merge_restores(s: SubstanceModel, fragment_mass: int)
    requires
        s.valid(),
        0 < fragment_mass < s.mass,
    ensures
        combined_fits(fragment_remainder(s, fragment_mass), fragment_piece(s, fragment_mass)),
        combined(fragment_remainder(s, fragment_mass), fragment_piece(s, fragment_mass)) == s,
{
    let r = fragment_remainder(s, fragment_mass);
    let p = fragment_piece(s, fragment_mass);
    let c = combined(r, p);
    assert(c.intents =~= s.intents);
}

/// Balancing moves intent but never creates or destroys it: the two
/// quantities add up as before, masses are unchanged, and the second
/// substance receives its share by mass of the total, rounded towards zero.
pub proof fn law_balance_conserves(s: SubstanceModel, intent: Intent, other: SubstanceModel)
    requires
        spec_balance(s, intent, other) is Some,
    ensures
        ({
            let (s1, o1) = spec_balance(s, intent, other)->0;
            &&& s1.level(intent) + o1.level(intent) == s.level(intent) + other.level(intent)
            &&& o1.level(intent) == tdiv(
                (s.level(intent) + other.level(intent)) * other.mass,
                s.mass + other.mass,
            )
            &&& s1.mass == s.mass
            &&& o1.mass == other.mass
        }),
{
}

/// A `becomes` step moves intent from one kind to another, keeping the total
/// and the mass.
proof fn lemma_becomes_keeps_total(
    s: SubstanceModel,
    source: Intent,
    dest: Intent,
    target_percent: int,
    speed_percent: int,
)
    requires
        source != dest,
        spec_becomes(s, source, dest, target_percent, speed_percent) is Some,
    ensures
        ({
            let r = spec_becomes(s, source, dest, target_percent, speed_percent)->0;
            r.total_intent() == s.total_intent() && r.mass == s.mass
        }),
{
}

/// One reaction spends two units and adds at most two, keeping the mass.
proof fn lemma_react_no_gain(s: SubstanceModel, a: Intent, b: Intent, into: Intent)
    requires
        a != b,
        a != into,
        b != into,
        spec_react(s, a, b, into) is Some,
    ensures
        spec_react(s, a, b, into)->0.total_intent() <= s.total_intent(),
        spec_react(s, a, b, into)->0.mass == s.mass,
{
    let s1 = spec_sub(s, a, 1)->0;
    let s2 = spec_sub(s1, b, 1)->0;
    assert(s1.total_intent() == s.total_intent() - 1);
    assert(s2.total_intent() == s1.total_intent() - 1);
    lemma_add_gains_at_most(s2, into, 2);
}

/// Adding gains at most the amount in total, and keeps the mass.
proof fn lemma_add_gains_at_most(s: SubstanceModel, intent: Intent, amount: int)
    requires
        spec_add(s, intent, amount) is Some,
    ensures
        spec_add(s, intent, amount)->0.total_intent() <= s.total_intent() + amount,
        spec_add(s, intent, amount)->0.mass == s.mass,
{
    if amount > 0 {
        law_soft_add_bounded(s.level(intent), amount, soft_cap(s.mass));
    }
}

/// A substance left to itself keeps its mass and never gains intent: the
/// total quantity of intent after its internal reactions is at most what it
/// was.
pub proof fn law_internal_interaction_no_gain(s: SubstanceModel)
    requires
        spec_internal_interaction(s) is Some,
    ensures
        spec_internal_interaction(s)->0.mass == s.mass,
        spec_internal_interaction(s)->0.total_intent() <= s.total_intent(),
{
    let s1 = spec_becomes(s, Intent::Plant, Intent::Leaf, 5, 10)->0;
    lemma_becomes_keeps_total(s, Intent::Plant, Intent::Leaf, 5, 10);
    let s2 = spec_becomes(s1, Intent::Plant, Intent::Growth, 2, 10)->0;
    lemma_becomes_keeps_total(s1, Intent::Plant, Intent::Growth, 2, 10);
    let s3 = spec_merge_one(s2, Intent::Leaf, Intent::Air, Intent::Plant)->0;
    if s2.has(Intent::Leaf) && s2.has(Intent::Air) {
        lemma_react_no_gain(s2, Intent::Leaf, Intent::Air, Intent::Plant);
    }
    if spec_merges(s3, Intent::Leaf, Intent::Growth, Intent::AbsorbAir, 90) != Some(s3) {
        lemma_react_no_gain(s3, Intent::Leaf, Intent::Growth, Intent::AbsorbAir);
    }
}

/// Only contact does anything: any other interaction leaves all three
/// substances as they were.
pub proof fn law_interaction_only_contact(
    interaction_type: InteractionType,
    a: SubstanceModel,
    b: SubstanceModel,
    out: Option<SubstanceModel>,
)
    requires
        interaction_type != InteractionType::Contact,
    ensures
        spec_interaction(interaction_type, a, b, out) == Some((a, b, out)),
{
}

/// Interaction moves matter but never creates or destroys it: with somewhere
/// to put absorbed matter, the three masses add up as before; without, both
/// masses stay as they were.
pub proof fn law_interaction_conserves_mass(
    interaction_type: InteractionType,
    a: SubstanceModel,
    b: SubstanceModel,
    out: Option<SubstanceModel>,
)
    requires
        spec_interaction(interaction_type, a, b, out) is Some,
    ensures
        ({
            let (a1, b1, out1) = spec_interaction(interaction_type, a, b, out)->0;
            &&& out1 is Some == out is Some
            &&& out matches Some(o) ==> a1.mass + b1.mass + out1->0.mass == a.mass + b.mass + o.mass
            &&& out is None ==> a1.mass == a.mass && b1.mass == b.mass
        }),
{
}

/// Pushing moves all of an intent: the giver keeps no record of it, and the
/// receiver gains no more than was given (its soft cap may swallow some),
/// never less than nothing; masses and every other intent stay as they were.
pub proof fn law_push_moves_all(from: SubstanceModel, intent: Intent, to: SubstanceModel)
    requires
        spec_push(from, intent, to) is Some,
        to.valid(),
    ensures
        ({
            let (from1, to1) = spec_push(from, intent, to)->0;
            &&& !from1.intents.contains_key(intent)
            &&& to.level(intent) <= to1.level(intent) <= to.level(intent) + from.level(intent)
            &&& from1.mass == from.mass
            &&& to1.mass == to.mass
            &&& forall|i: Intent| i != intent ==> #[trigger] from1.level(i) == from.level(i)
                && to1.level(i) == to.level(i)
        }),
{
    let amount = from.level(intent);
    if amount > 0 {
        law_soft_add_bounded(to.level(intent), amount, soft_cap(to.mass));
    }
}

/// Tending a leaf moves matter but never creates or destroys it: the stem
/// keeps its mass, and what the leaf gains the air loses.
pub proof fn law_tend_leaf_conserves_mass(
    stem: SubstanceModel,
    leaf: SubstanceModel,
    air: SubstanceModel,
)
    requires
        spec_tend_leaf(stem, leaf, air) is Some,
    ensures
        ({
            let (stem1, leaf1, air1) = spec_tend_leaf(stem, leaf, air)->0;
            &&& stem1.mass == stem.mass
            &&& leaf1.mass + air1.mass == leaf.mass + air.mass
        }),
{
    law_interaction_conserves_mass(InteractionType::Contact, leaf, air, Some(empty_substance()));
    let (leaf1, air1, absorbed) = spec_interaction(
        InteractionType::Contact,
        leaf,
        air,
        Some(empty_substance()),
    )->0;
    let gained = absorbed->0;
    let (leaf2, stem1) = spec_push(combined(leaf1, gained), Intent::Plant, stem)->0;
    let (stem2, leaf3) = spec_balance(stem1, Intent::Leaf, leaf2)->0;
    law_internal_interaction_no_gain(leaf3);
}

/// A stem sprouts a leaf only from matter that stem and air give up: with or
/// without a leaf, no mass appears or vanishes, a leaf that grows has
/// positive mass, and all of the stem's air and growth intent goes into it.
pub proof fn law_sprout_leaf_conserves_mass(stem: SubstanceModel, air: SubstanceModel)
    requires
        spec_sprout_leaf(stem, air) is Some,
    ensures
        ({
            let (stem1, air1, leaf) = spec_sprout_leaf(stem, air)->0;
            &&& leaf matches Some(l) ==> {
                &&& l.mass > 0
                &&& stem1.mass + air1.mass + l.mass == stem.mass + air.mass
                &&& !stem1.intents.contains_key(Intent::Air)
                &&& !stem1.intents.contains_key(Intent::Growth)
            }
            &&& leaf is None ==> stem1.mass + air1.mass == stem.mass + air.mass
        }),
{
    law_interaction_conserves_mass(InteractionType::Contact, stem, air, Some(empty_substance()));
}


/// Adding intent to a substance is soft-capped by its mass: the quantity
/// never falls and never rises by more than the amount; while it stays
/// within the mass, the whole amount arrives; once it has reached `k` times
/// the mass, it rises by at most `amount / (k + 1)`. The mass and every other
/// intent stay as they were.
pub proof fn law_add_soft_capped(s: SubstanceModel, intent: Intent, amount: int, k: int)
    requires
        spec_add(s, intent, amount) is Some,
        k >= 0,
    ensures
        ({
            let s1 = spec_add(s, intent, amount)->0;
            let v = s.level(intent);
            let cap = soft_cap(s.mass);
            &&& v <= s1.level(intent) <= v + amount
            &&& 0 <= v && v + amount <= cap ==> s1.level(intent) == v + amount
            &&& k * cap <= v ==> s1.level(intent) - v <= amount / (k + 1)
            &&& s1.mass == s.mass
            &&& forall|i: Intent| i != intent ==> #[trigger] s1.level(i) == s.level(i)
        }),
{
    let v = s.level(intent);
    let cap = soft_cap(s.mass);
    if amount > 0 {
        law_soft_add_bounded(v, amount, cap);
        if 0 <= v && v + amount <= cap {
            law_soft_add_exact_within_cap(v, amount, cap);
        }
        if k * cap <= v {
            law_soft_add_costs_rise(v, amount, cap, k);
        }
    } else {
        assert(amount / (k + 1) == 0) by (nonlinear_arith)
            requires amount == 0, k >= 0;
    }
}


/// Quantities from `v` up to the top of its bracket lie in that bracket.
proof fn lemma_same_bracket(v: int, u: int, cap: int)
    requires
        cap >= 1,
        v > -cap,
        v <= u < tdiv(v, cap) * cap + cap,
    ensures
        tdiv(u, cap) == tdiv(v, cap),
{
    let b = tdiv(v, cap);
    lemma_bracket(v, cap);
    lemma_bracket(u, cap);
    let bu = tdiv(u, cap);
    if u >= 0 {
        assert(b * cap <= u);
        assert(b <= bu);
        assert(bu * cap <= u);
        assert(bu < b + 1) by (nonlinear_arith)
            requires bu * cap <= u, u < b * cap + cap, cap >= 1;
    } else {
        assert(bu == 0);
        assert(b == 0) by (nonlinear_arith)
            requires b >= 0, b * cap <= 0, cap >= 1;
    }
}

/// The cost of a climb splits at any point in between.
proof fn lemma_cost_split(from: int, mid: int, to: int, cap: int)
    requires
        from <= mid <= to,
    ensures
        climb_cost(from, to, cap) == climb_cost(from, mid, cap) + climb_cost(mid, to, cap),
    decreases mid - from,
{
    if from < mid {
        lemma_cost_split(from + 1, mid, to, cap);
    }
}

/// Above minus the cap, every unit costs at least one, so a climb of at least
/// one unit costs at least its first unit.
proof fn lemma_cost_positive(from: int, to: int, cap: int)
    requires
        cap >= 1,
        from > -cap,
    ensures
        climb_cost(from, to, cap) >= 0,
        from < to ==> climb_cost(from, to, cap) >= tdiv(from, cap) + 1,
    decreases to - from,
{
    lemma_bracket(from, cap);
    if from < to {
        lemma_cost_positive(from + 1, to, cap);
    }
}

/// Within one bracket every unit costs the same: one more than the bracket.
proof fn lemma_cost_in_bracket(v: int, t: int, cap: int)
    requires
        cap >= 1,
        v > -cap,
        t >= 0,
        v + t <= tdiv(v, cap) * cap + cap,
    ensures
        climb_cost(v, v + t, cap) == t * (tdiv(v, cap) + 1),
    decreases t,
{
    let b = tdiv(v, cap);
    if t == 1 {
        assert(climb_cost(v + 1, v + 1, cap) == 0);
        assert(climb_cost(v, v + 1, cap) == b + 1);
        assert(1 * (b + 1) == b + 1);
    } else if t > 1 {
        lemma_same_bracket(v, v + 1, cap);
        lemma_cost_in_bracket(v + 1, t - 1, cap);
        assert(v + 1 + (t - 1) == v + t);
        assert(climb_cost(v + 1, v + t, cap) == (t - 1) * (b + 1));
        assert(climb_cost(v, v + t, cap) == (b + 1) + climb_cost(v + 1, v + t, cap));
        assert((b + 1) + (t - 1) * (b + 1) == t * (b + 1)) by (nonlinear_arith);
    } else {
        assert(climb_cost(v, v, cap) == 0);
        assert(0 * (b + 1) == 0);
    }
}

/// What adding under the soft cap reaches is paid for by the amount, and the
/// next unit would cost more than is left.
pub proof fn law_soft_add_affordable(value: int, amount: int, cap: int)
    requires
        cap >= 1,
        value > -cap,
        amount >= 0,
    ensures
        value <= soft_add_level(value, amount, cap),
        climb_cost(value, soft_add_level(value, amount, cap), cap) <= amount,
        amount - climb_cost(value, soft_add_level(value, amount, cap), cap) < tdiv(
            soft_add_level(value, amount, cap),
            cap,
        ) + 1,
    decreases amount,
{
    lemma_bracket(value, cap);
    if amount > 0 {
        let bracket = tdiv(value, cap);
        if bracket < amount {
            let space = bracket * cap + cap - value;
            assert(amount / (bracket + 1) >= 1) by (nonlinear_arith)
                requires amount > bracket, bracket >= 0;
            let to_add = min(amount / (bracket + 1), space);
            lemma_cost_bounds(amount, bracket, to_add);
            let rest = amount - to_add * (bracket + 1);
            law_soft_add_affordable(value + to_add, rest, cap);
            let r = soft_add_level(value, amount, cap);
            assert(r == soft_add_level(value + to_add, rest, cap));
            lemma_cost_in_bracket(value, to_add, cap);
            lemma_cost_split(value, value + to_add, r, cap);
        }
    }
}

/// Adding under the soft cap reaches the largest quantity the amount pays
/// for: no quantity that `amount` can pay for from `value` lies above it.
pub proof fn law_soft_add_is_largest_affordable(value: int, amount: int, cap: int, reach: int)
    requires
        cap >= 1,
        value > -cap,
        amount >= 0,
        value <= reach,
        climb_cost(value, reach, cap) <= amount,
    ensures
        reach <= soft_add_level(value, amount, cap),
{
    let r = soft_add_level(value, amount, cap);
    law_soft_add_affordable(value, amount, cap);
    if reach > r {
        lemma_cost_split(value, r, reach, cap);
        lemma_cost_positive(r, reach, cap);
    }
}

/// Adding more never reaches less.
pub proof fn law_soft_add_monotone(value: int, x: int, y: int, cap: int)
    requires
        cap >= 1,
        value > -cap,
        0 <= x <= y,
    ensures
        soft_add_level(value, x, cap) <= soft_add_level(value, y, cap),
{
    law_soft_add_affordable(value, x, cap);
    law_soft_add_is_largest_affordable(value, y, cap, soft_add_level(value, x, cap));
}

/// Splitting an addition in two never gains: what is left over after the
/// first part is lost, so adding `x` then `y` reaches no more than adding
/// `x + y` at once.
pub proof fn law_soft_add_split_never_gains(value: int, x: int, y: int, cap: int)
    requires
        cap >= 1,
        value > -cap,
        x >= 0,
        y >= 0,
    ensures
        soft_add_level(soft_add_level(value, x, cap), y, cap) <= soft_add_level(value, x + y, cap),
{
    let r1 = soft_add_level(value, x, cap);
    law_soft_add_affordable(value, x, cap);
    law_soft_add_affordable(r1, y, cap);
    let r2 = soft_add_level(r1, y, cap);
    lemma_cost_split(value, r1, r2, cap);
    law_soft_add_is_largest_affordable(value, x + y, cap, r2);
}

/// On a substance: adding more of an intent never leaves less of it, and
/// adding `x` then `y` leaves no more than adding `x + y` at once.
pub proof fn law_add_monotone_and_split_never_gains(
    s: SubstanceModel,
    intent: Intent,
    x: int,
    y: int,
)
    requires
        x >= 0,
        y >= 0,
        spec_add(s, intent, x) is Some,
        spec_add(s, intent, x + y) is Some,
    ensures
        spec_add(s, intent, x)->0.level(intent) <= spec_add(s, intent, x + y)->0.level(intent),
        spec_add(spec_add(s, intent, x)->0, intent, y) is Some ==> spec_add(
            spec_add(s, intent, x)->0,
            intent,
            y,
        )->0.level(intent) <= spec_add(s, intent, x + y)->0.level(intent),
{
    let v = s.level(intent);
    let cap = soft_cap(s.mass);
    if x + y > 0 {
        law_soft_add_monotone(v, x, x + y, cap);
        law_soft_add_split_never_gains(v, x, y, cap);
        law_soft_add_bounded(v, x, cap);
    }
}


/// A stem's tick decides by its leaf: a present leaf is always tended; a
/// leaf that is gone is always forgotten; and if and only if the stem has no
/// leaf, it tries to sprout one, resting only when that gathers no mass. The
/// stem's own reactions come first whatever happens.
pub proof fn law_stem_tick_decision(
    stem: SubstanceModel,
    leaf: Option<SubstanceModel>,
    linked: bool,
    air: SubstanceModel,
)
    requires
        spec_stem_tick(stem, leaf, linked, air) is Some,
    ensures
        spec_internal_interaction(stem) is Some,
        ({
            let tick = (spec_stem_tick(stem, leaf, linked, air)->0).3;
            &&& leaf is Some <==> tick is Tended
            &&& (leaf is None && linked) <==> tick is Unlinked
            &&& (leaf is None && !linked) <==> (tick is Sprouted || tick is Rested)
            &&& tick is Rested ==> (spec_sprout_leaf(
                spec_internal_interaction(stem)->0,
                air,
            )->0).2 is None
        }),
{
}

/// Sprouting takes matter only from the air unless the air itself has intent
/// to absorb: where the air holds no positive intent to absorb air, the stem
/// keeps its mass.
pub proof fn law_sprout_leaf_keeps_stem_mass(stem: SubstanceModel, air: SubstanceModel)
    requires
        spec_sprout_leaf(stem, air) is Some,
        !air.has(Intent::AbsorbAir),
    ensures
        (spec_sprout_leaf(stem, air)->0).0.mass == stem.mass,
{
    let o = empty_substance();
    let (a1, b1, o1) = spec_absorb(stem, air, o)->0;
    if stem.has(Intent::AbsorbAir) && air.has(Intent::Air) && 1 < air.mass {
        let delta = min(min(stem.level(Intent::AbsorbAir), air.level(Intent::Air)), air.mass - 1);
        let air1 = air.put(Intent::Air, air.level(Intent::Air) - delta);
        assert(air1.level(Intent::AbsorbAir) == air.level(Intent::AbsorbAir));
        if air1.intents.contains_key(Intent::AbsorbAir) {
            lemma_share_bounds(air1.intents[Intent::AbsorbAir], delta, air1.mass);
        }
        assert(!b1.has(Intent::AbsorbAir));
    }
    assert(spec_absorb(b1, a1, o1) == Some((b1, a1, o1)));
}

/// A stem does not change size: where the air holds no positive intent to
/// absorb air, a stem's tick leaves the stem's mass as it was, whatever it
/// does with its leaf.
pub proof fn law_stem_tick_keeps_stem_mass(
    stem: SubstanceModel,
    leaf: Option<SubstanceModel>,
    linked: bool,
    air: SubstanceModel,
)
    requires
        spec_stem_tick(stem, leaf, linked, air) is Some,
        !air.has(Intent::AbsorbAir),
    ensures
        (spec_stem_tick(stem, leaf, linked, air)->0).0.mass == stem.mass,
{
    law_internal_interaction_no_gain(stem);
    let stem1 = spec_internal_interaction(stem)->0;
    match leaf {
        Some(l) => {
            law_tend_leaf_conserves_mass(stem1, l, air);
        },
        None => {
            if !linked {
                law_sprout_leaf_keeps_stem_mass(stem1, air);
            }
        },
    }
}


/// Leaf and growth intent make intent to absorb air only while that intent
/// is below ninety percent of the lesser of the two. For a substance with no
/// plant intent and no air, non-negative leaf, growth and absorbing intent:
/// its own reactions are never refused; they leave it exactly as it was
/// when the absorbing intent has reached ninety percent of the lesser of leaf
/// and growth; and otherwise one unit each of leaf and growth is spent.
pub proof fn law_absorbing_intent_follows_the_lesser_of_leaf_and_growth(s: SubstanceModel)
    requires
        s.level(Intent::Plant) == 0,
        s.level(Intent::Air) <= 0,
        s.level(Intent::Leaf) >= 0,
        s.level(Intent::Growth) >= 0,
        s.level(Intent::AbsorbAir) >= 0,
        s.valid(),
    ensures
        spec_internal_interaction(s) is Some,
        ({
            let least = min(s.level(Intent::Leaf), s.level(Intent::Growth));
            let r = spec_internal_interaction(s)->0;
            &&& s.level(Intent::AbsorbAir) >= least * 90 / 100 ==> r == s
            &&& s.level(Intent::AbsorbAir) < least * 90 / 100 ==> {
                &&& r.level(Intent::Leaf) == s.level(Intent::Leaf) - 1
                &&& r.level(Intent::Growth) == s.level(Intent::Growth) - 1
                &&& s.level(Intent::AbsorbAir) <= r.level(Intent::AbsorbAir) <= s.level(
                    Intent::AbsorbAir,
                ) + 2
                &&& r.mass == s.mass
            }
        }),
{
    let least = min(s.level(Intent::Leaf), s.level(Intent::Growth));
    assert(tdiv(0int * 5, 100) == 0);
    assert(tdiv(0int * 2, 100) == 0);
    assert(spec_becomes(s, Intent::Plant, Intent::Leaf, 5, 10) == Some(s));
    assert(spec_becomes(s, Intent::Plant, Intent::Growth, 2, 10) == Some(s));
    assert(spec_merge_one(s, Intent::Leaf, Intent::Air, Intent::Plant) == Some(s));
    assert(least >= 0);
    assert(tdiv(least * 90, 100) == least * 90 / 100);
    if s.level(Intent::AbsorbAir) < least * 90 / 100 {
        assert(least * 90 / 100 < least) by (nonlinear_arith)
            requires least * 90 / 100 > 0, least >= 0;
        assert(least >= 2) by (nonlinear_arith)
            requires least * 90 / 100 >= 1, least >= 0;
        let s2 = spec_sub(spec_sub(s, Intent::Leaf, 1)->0, Intent::Growth, 1)->0;
        let v = s2.level(Intent::AbsorbAir);
        let cap = soft_cap(s2.mass);
        law_soft_add_bounded(v, 2, cap);
    }
}


/// A leaf draws air only up to the lesser of its leaf intent and the air it
/// touches. When `a` (leaf intent `L`, air `A >= 0`) touches `b` (air `S`,
/// no leaf intent) with nowhere to put absorbed matter: if `A` is below the
/// lesser `m` of `L` and `S`, then `b` gives up exactly `m - A` air and `a`
/// ends with at most `m` (exactly `m` while `m` lies within `a`'s soft cap);
/// otherwise nothing changes. The contact is never refused.
pub proof fn law_leaf_draws_air_up_to_the_lesser(a: SubstanceModel, b: SubstanceModel)
    requires
        a.valid(),
        b.valid(),
        a.level(Intent::Leaf) > 0,
        a.level(Intent::Air) >= 0,
        b.level(Intent::Air) > 0,
        b.level(Intent::Leaf) <= 0,
    ensures
        spec_interaction(InteractionType::Contact, a, b, None) is Some,
        ({
            let (a1, b1, out) = spec_interaction(InteractionType::Contact, a, b, None)->0;
            let l = a.level(Intent::Leaf);
            let air = a.level(Intent::Air);
            let supply = b.level(Intent::Air);
            let m = min(l, supply);
            &&& out is None
            &&& air < m ==> {
                &&& b1.level(Intent::Air) == supply - (m - air)
                &&& air <= a1.level(Intent::Air) <= m
                &&& m <= soft_cap(a.mass) ==> a1.level(Intent::Air) == m
            }
            &&& air >= m ==> a1 == a && b1 == b
            &&& a1.mass == a.mass && b1.mass == b.mass
        }),
{
    let l = a.level(Intent::Leaf);
    let air = a.level(Intent::Air);
    let supply = b.level(Intent::Air);
    let m = min(l, supply);
    assert(tdiv(m * 100, 100) == m) by (nonlinear_arith)
        requires m > 0, tdiv(m * 100, 100) == (m * 100) / 100;
    if air < m {
        let delta = m - air;
        law_soft_add_bounded(air, delta, soft_cap(a.mass));
        if m <= soft_cap(a.mass) {
            law_soft_add_exact_within_cap(air, delta, soft_cap(a.mass));
        }
    }
}


/// Where neither side has intent to absorb air, an output makes no
/// difference to a contact: it is handed back untouched, and both sides end
/// as they would without it.
pub proof fn law_contact_without_absorbing_ignores_output(
    a: SubstanceModel,
    b: SubstanceModel,
    out: SubstanceModel,
)
    requires
        !a.has(Intent::AbsorbAir),
        !b.has(Intent::AbsorbAir),
    ensures
        spec_interaction(InteractionType::Contact, a, b, Some(out)) is Some
            <==> spec_interaction(InteractionType::Contact, a, b, None) is Some,
        spec_interaction(InteractionType::Contact, a, b, None) matches Some((a1, b1, _)) ==>
            spec_interaction(InteractionType::Contact, a, b, Some(out)) == Some((a1, b1, Some(out))),
{
}

/// A stem that gathers no mass keeps what its contact with the air did: it
/// rests with the stem and the air exactly as touching each other left them.
pub proof fn law_sprout_rests_as_contact_left_it(stem: SubstanceModel, air: SubstanceModel)
    requires
        spec_sprout_leaf(stem, air) is Some,
        (spec_sprout_leaf(stem, air)->0).2 is None,
    ensures
        spec_interaction(InteractionType::Contact, stem, air, Some(empty_substance())) is Some,
        ({
            let (stem1, air1, _) = spec_interaction(
                InteractionType::Contact,
                stem,
                air,
                Some(empty_substance()),
            )->0;
            (spec_sprout_leaf(stem, air)->0).0 == stem1 && (spec_sprout_leaf(stem, air)->0).1
                == air1
        }),
{
}

/// A stem with leaf intent but no air, where neither it nor the air has
/// intent to absorb, gathers no mass and so grows no leaf; but its leaf
/// intent still draws air: it ends with the lesser `m` of its leaf intent and
/// the air's supply (when `m` lies within its soft cap), and the air gives up
/// exactly `m`.
pub proof fn law_leafless_stem_without_absorbing_draws_air(
    stem: SubstanceModel,
    air: SubstanceModel,
)
    requires
        stem.valid(),
        air.valid(),
        !stem.has(Intent::AbsorbAir),
        !air.has(Intent::AbsorbAir),
        stem.level(Intent::Leaf) > 0,
        stem.level(Intent::Air) == 0,
        air.level(Intent::Air) > 0,
        air.level(Intent::Leaf) <= 0,
    ensures
        spec_sprout_leaf(stem, air) is Some,
        ({
            let (stem1, air1, leaf) = spec_sprout_leaf(stem, air)->0;
            let m = min(stem.level(Intent::Leaf), air.level(Intent::Air));
            &&& leaf is None
            &&& air1.level(Intent::Air) == air.level(Intent::Air) - m
            &&& stem1.level(Intent::Air) <= m
            &&& m <= soft_cap(stem.mass) ==> stem1.level(Intent::Air) == m
            &&& stem1.mass == stem.mass && air1.mass == air.mass
        }),
{
    law_leaf_draws_air_up_to_the_lesser(stem, air);
    law_contact_without_absorbing_ignores_output(stem, air, empty_substance());
}


/// A stem with a present leaf reacts within itself first and only then
/// tends its leaf: the tick gives exactly what tending the leaf gives when
/// done by the stem as its own reactions left it.
pub proof fn law_stem_tick_reacts_then_tends(
    stem: SubstanceModel,
    leaf: SubstanceModel,
    linked: bool,
    air: SubstanceModel,
)
    requires
        spec_stem_tick(stem, Some(leaf), linked, air) is Some,
    ensures
        spec_internal_interaction(stem) is Some,
        spec_tend_leaf(spec_internal_interaction(stem)->0, leaf, air) is Some,
        ({
            let (stem2, leaf2, air2) = spec_tend_leaf(
                spec_internal_interaction(stem)->0,
                leaf,
                air,
            )->0;
            spec_stem_tick(stem, Some(leaf), linked, air)->0 == (
                stem2,
                Some(leaf2),
                air2,
                StemTick::Tended,
            )
        }),
{
}

/// Tending a leaf that carries no intent, in air with no intent to absorb,
/// does nothing to the stem but share its leaf intent: after the tick every
/// other intent of the stem stands as the stem's own reactions left it, the
/// stem's and the leaf's leaf intent together make up what those reactions
/// left the stem, and the stem's mass and the air are unchanged.
pub proof fn law_stem_tick_with_bare_leaf_only_shares_leaf_intent(
    stem: SubstanceModel,
    leaf: SubstanceModel,
    linked: bool,
    air: SubstanceModel,
)
    requires
        spec_stem_tick(stem, Some(leaf), linked, air) is Some,
        leaf.intents == Map::<Intent, int>::empty(),
        !air.has(Intent::AbsorbAir),
    ensures
        spec_internal_interaction(stem) is Some,
        ({
            let reacted = spec_internal_interaction(stem)->0;
            let (stem1, leaf1, air1, _) = spec_stem_tick(stem, Some(leaf), linked, air)->0;
            &&& forall|i: Intent| i != Intent::Leaf ==> #[trigger] stem1.level(i) == reacted.level(i)
            &&& stem1.level(Intent::Leaf) + leaf1->0.level(Intent::Leaf) == reacted.level(
                Intent::Leaf,
            )
            &&& stem1.mass == stem.mass
            &&& air1 == air
        }),
{
    law_internal_interaction_no_gain(stem);
    let s1 = spec_internal_interaction(stem)->0;
    let o = empty_substance();
    assert(spec_absorb(leaf, air, o) == Some((leaf, air, o)));
    assert(spec_absorb(air, leaf, o) == Some((air, leaf, o)));
    assert(spec_interaction(InteractionType::Contact, leaf, air, Some(o)) == Some(
        (leaf, air, Some(o)),
    ));
    let c = combined(leaf, o);
    assert(c.intents =~= leaf.intents);
    assert(c == leaf);
    assert(spec_add(s1, Intent::Plant, 0) == Some(s1));
    let leaf2 = leaf.without(Intent::Plant);
    assert(spec_push(leaf, Intent::Plant, s1) == Some((leaf2, s1)));
    let (stem2, leaf3) = spec_balance(s1, Intent::Leaf, leaf2)->0;
    let ov = leaf3.level(Intent::Leaf);
    assert(leaf3.level(Intent::Growth) == 0);
    assert(leaf3.level(Intent::AbsorbAir) == 0);
    assert(leaf3.level(Intent::Air) == 0);
    assert(!leaf3.intents.contains_key(Intent::Plant));
    assert(tdiv(min(ov, 0) * 90, 100) <= 0);
    assert(spec_internal_interaction(leaf3) == Some(leaf3));
}

/// Tending keeps what the leaf absorbs, intent and all. Where none of stem,
/// leaf and air holds leaf intent and the air has no intent to absorb air,
/// the leaf absorbs a fragment of the air of some mass `d`, spending `d` of
/// its intent to absorb air and `d` of the air's air, and keeps every intent
/// the fragment carried: the leaf gains exactly `d` of mass, the air that
/// leaf and air hold together falls by exactly `d`, their growth intent
/// together stays as it was, and neither the stem nor the leaf ends with
/// leaf intent.
pub proof fn law_tend_leaf_keeps_absorbed_intent(
    stem: SubstanceModel,
    leaf: SubstanceModel,
    air: SubstanceModel,
)
    requires
        spec_tend_leaf(stem, leaf, air) is Some,
        stem.level(Intent::Leaf) == 0,
        leaf.level(Intent::Leaf) == 0,
        air.level(Intent::Leaf) <= 0,
        !air.has(Intent::AbsorbAir),
    ensures
        ({
            let (stem1, leaf1, air1) = spec_tend_leaf(stem, leaf, air)->0;
            let spent = leaf.level(Intent::AbsorbAir) - leaf1.level(Intent::AbsorbAir);
            &&& spent >= 0
            &&& leaf1.mass == leaf.mass + spent
            &&& leaf1.level(Intent::Air) + air1.level(Intent::Air) + spent == leaf.level(Intent::Air)
                + air.level(Intent::Air)
            &&& leaf1.level(Intent::Growth) + air1.level(Intent::Growth) == leaf.level(
                Intent::Growth,
            ) + air.level(Intent::Growth)
            &&& leaf1.level(Intent::Leaf) == 0
            &&& stem1.level(Intent::Leaf) == 0
        }),
{
    let o = empty_substance();
    let (l1, a1, absorbed) = spec_interaction(InteractionType::Contact, leaf, air, Some(o))->0;
    if leaf.has(Intent::AbsorbAir) && air.has(Intent::Air) && 1 < air.mass {
        let delta = min(
            min(leaf.level(Intent::AbsorbAir), air.level(Intent::Air)),
            air.mass - 1,
        );
        let la = leaf.put(Intent::AbsorbAir, leaf.level(Intent::AbsorbAir) - delta);
        let b1 = air.put(Intent::Air, air.level(Intent::Air) - delta);
        let piece = fragment_piece(b1, delta);
        let rem = fragment_remainder(b1, delta);
        law_fragment_conserves(b1, delta);
        lemma_share_bounds(b1.level(Intent::Leaf), delta, b1.mass);
        lemma_share_bounds(b1.level(Intent::AbsorbAir), delta, b1.mass);
        assert(piece.level(Intent::Leaf) == 0);
        assert(piece.level(Intent::AbsorbAir) == 0);
        assert(rem.level(Intent::Leaf) <= 0);
        assert(rem.level(Intent::AbsorbAir) <= 0);
        let out1 = combined(o, piece);
        assert(spec_absorb(leaf, air, o) == Some((la, rem, out1)));
        assert(spec_absorb(rem, la, out1) == Some((rem, la, out1)));
        assert(l1 == la);
        assert(a1 == rem);
        assert(absorbed == Some(out1));
    } else {
        assert(spec_absorb(leaf, air, o) == Some((leaf, air, o)));
        assert(spec_absorb(air, leaf, o) == Some((air, leaf, o)));
        assert(l1 == leaf);
        assert(a1 == air);
        assert(absorbed == Some(o));
    }
    let gained = absorbed->0;
    let c = combined(l1, gained);
    assert(c.level(Intent::Leaf) == 0);
    let (leaf2, stem1) = spec_push(c, Intent::Plant, stem)->0;
    assert(stem1.level(Intent::Leaf) == 0);
    assert(leaf2.level(Intent::Leaf) == 0);
    assert(0int * leaf2.mass == 0) by (nonlinear_arith);
    assert(stem1.mass + leaf2.mass != 0 ==> tdiv(0, stem1.mass + leaf2.mass) == 0);
    let (stem2, leaf3) = spec_balance(stem1, Intent::Leaf, leaf2)->0;
    assert(leaf3.level(Intent::Leaf) == 0);
    assert(!leaf3.intents.contains_key(Intent::Plant));
    assert(spec_becomes(leaf3, Intent::Plant, Intent::Leaf, 5, 10) == Some(leaf3));
    assert(spec_becomes(leaf3, Intent::Plant, Intent::Growth, 2, 10) == Some(leaf3));
    assert(spec_merge_one(leaf3, Intent::Leaf, Intent::Air, Intent::Plant) == Some(leaf3));
    assert(spec_sub(leaf3, Intent::Leaf, 1) is None);
    assert(spec_internal_interaction(leaf3) == Some(leaf3));
}

} // verus!
