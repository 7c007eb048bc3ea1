use std::collections::HashMap;
use vstd::prelude::*;
use crate::intent::{
    Intent, InteractionType, code, intent_code, intent_from_code, lemma_code_bijective,
    INTENT_COUNT,
};
use crate::model::{
    SubstanceModel, fits, min, soft_add_level, soft_cap, tdiv, lemma_bracket, lemma_cost_bounds,
    lemma_share_bounds, spec_add, spec_add_flat, spec_sub, spec_modify, spec_push, spec_balance,
    balanced_levels, spec_react, spec_becomes, becomes_fires, spec_merge_one, spec_merges,
    merges_fires, spec_internal_interaction, fragment_share, fragment_remainder, fragment_piece,
    combined, combined_fits, spec_absorb, spec_gather, spec_interaction, LEAF_GATHER_PERCENT,
};

verus! {

broadcast use vstd::std_specs::hash::group_hash_axioms;

/// The quantities a substance records, keyed by intent.
pub struct IntentTable {
    map: HashMap<u8, i32>,
}

impl View for IntentTable {
    type V = Map<Intent, int>;

    closed spec fn view(&self) -> Map<Intent, int> {
        Map::new(
            |i: Intent| self.map@.contains_key(code(i)),
            |i: Intent| self.map@[code(i)] as int,
        )
    }
}

/// Every recorded quantity fits an `i32`.
pub proof fn lemma_table_fits(t: &IntentTable)
    ensures
        forall|i: Intent| #[trigger] t@.contains_key(i) ==> fits(t@[i]),
{
}

impl IntentTable {
    /// A table that records nothing.
    pub fn new() -> (t: Self)
        ensures
            t@ == Map::<Intent, int>::empty(),
    {
        let t = IntentTable { map: HashMap::new() };
        assert(t@ =~= Map::<Intent, int>::empty());
        t
    }

    /// The quantity recorded for `intent`, if any.
    pub fn get(&self, intent: &Intent) -> (r: Option<&i32>)
        ensures
            r is Some <==> self@.contains_key(*intent),
            r matches Some(v) ==> *v == self@[*intent],
    {
        self.map.get(&intent_code(*intent))
    }

    /// Records `value` for `intent`.
    pub fn insert(&mut self, intent: Intent, value: i32)
        ensures
            final(self)@ == old(self)@.insert(intent, value as int),
    {
        proof {
            lemma_code_bijective();
        }
        self.map.insert(intent_code(intent), value);
        assert(self@ =~= old(self)@.insert(intent, value as int));
    }

    /// Removes the record of `intent`, returning what it held.
    pub fn remove(&mut self, intent: &Intent) -> (r: Option<i32>)
        ensures
            final(self)@ == old(self)@.remove(*intent),
            r is Some <==> old(self)@.contains_key(*intent),
            r matches Some(v) ==> v == old(self)@[*intent],
    {
        proof {
            lemma_code_bijective();
        }
        let r = self.map.remove(&intent_code(*intent));
        assert(self@ =~= old(self)@.remove(*intent));
        r
    }
}

impl Clone for IntentTable {
    fn clone(&self) -> (t: Self)
        ensures
            t@ == self@,
    {
        let t = IntentTable { map: self.map.clone() };
        assert(t@ =~= self@);
        t
    }
}

/// An amount of matter with the intents it carries.
pub struct Substance {
    pub mass: i32,
    pub values: IntentTable,
}

impl View for Substance {
    type V = SubstanceModel;

    open spec fn view(&self) -> SubstanceModel {
        SubstanceModel { mass: self.mass as int, intents: self.values@ }
    }
}

/// The model of every substance is valid: its quantities fit `i32`.
pub proof fn lemma_view_valid(s: &Substance)
    ensures
        s@.valid(),
{
    lemma_table_fits(&s.values);
}

/// The quantity reached by adding `amount` to `value` under the soft cap of a
/// substance of mass `mass`, or `None` where that addition is refused: a
/// negative amount, a positive amount onto a quantity at or below minus the
/// cap, or a result beyond `i32`.
pub fn soft_add_value(value: i32, amount: i32, mass: i32) -> (r: Option<i32>)
    ensures
        r == (if amount < 0 || (amount > 0 && value <= -soft_cap(mass as int))
            || !fits(soft_add_level(value as int, amount as int, soft_cap(mass as int))) {
            None::<i32>
        } else {
            Some(soft_add_level(value as int, amount as int, soft_cap(mass as int)) as i32)
        }),
{
    let cap: i64 = if mass < 1 { 1 } else { mass as i64 };
    if amount < 0 {
        return None;
    }
    if amount == 0 {
        return Some(value);
    }
    if (value as i64) <= -cap {
        return None;
    }
    let ghost total = soft_add_level(value as int, amount as int, cap as int);
    let mut v: i64 = value as i64;
    let mut a: i64 = amount as i64;
    loop
        invariant
            1 <= cap <= i32::MAX,
            0 <= a <= amount,
            value <= v,
            v - value <= amount - a,
            v > -cap,
            soft_add_level(v as int, a as int, cap as int) == total,
        ensures
            v == total,
            value <= v,
        decreases a,
    {
        let bracket = v / cap;
        assert(bracket == tdiv(v as int, cap as int));
        if bracket >= a {
            assert(soft_add_level(v as int, a as int, cap as int) == v);
            break;
        }
        proof {
            lemma_bracket(v as int, cap as int);
        }
        let space = bracket * cap + cap - v;
        let per = a / (bracket + 1);
        assert(per >= 1) by (nonlinear_arith)
            requires a > bracket, bracket >= 0, per as int == (a as int) / (bracket as int + 1);
        let to_add = if per < space { per } else { space };
        proof {
            lemma_cost_bounds(a as int, bracket as int, to_add as int);
        }
        assert(to_add <= to_add * (bracket + 1)) by (nonlinear_arith)
            requires to_add >= 1, bracket >= 0;
        v = v + to_add;
        a = a - to_add * (bracket + 1);
    }
    if v > i32::MAX as i64 {
        None
    } else {
        Some(v as i32)
    }
}

/// The quantities that the combined quantity of two substances splits into
/// when balanced (see `balanced_levels`).
fn balanced_shares(self_level: i32, other_level: i32, self_mass: i32, other_mass: i32) -> (r: Option<
    (i32, i32),
>)
    ensures
        ({
            let expected = balanced_levels(
                self_level + other_level,
                self_mass as int,
                other_mass as int,
            );
            &&& r is Some <==> expected is Some
            &&& r matches Some((sv, ov)) ==> expected == Some((sv as int, ov as int))
        }),
{
    let total_val: i128 = self_level as i128 + other_level as i128;
    let total_mass: i128 = self_mass as i128 + other_mass as i128;
    if total_mass == 0 {
        return None;
    }
    assert(-0x1_0000_0000_0000_0000 <= total_val * (other_mass as i128) <= 0x1_0000_0000_0000_0000)
        by (nonlinear_arith)
        requires
            -0x1_0000_0000 <= total_val <= 0x1_0000_0000,
            -0x8000_0000 <= other_mass <= 0x7fff_ffff,
    ;
    let product: i128 = total_val * (other_mass as i128);
    // Rounds towards zero, as `/` does on signed integers.
    let num: i128 = if product < 0 { -product } else { product };
    let den: i128 = if total_mass < 0 { -total_mass } else { total_mass };
    let quotient: i128 = num / den;
    let other_val: i128 = if (product < 0) != (total_mass < 0) { -quotient } else { quotient };
    let self_val: i128 = total_val - other_val;
    if self_val < i32::MIN as i128 || self_val > i32::MAX as i128 || other_val < i32::MIN as i128
        || other_val > i32::MAX as i128 {
        return None;
    }
    Some((self_val as i32, other_val as i32))
}

impl Clone for Substance {
    fn clone(&self) -> (s: Self)
        ensures
            s@ == self@,
    {
        Substance { mass: self.mass, values: self.values.clone() }
    }
}

impl Default for Substance {
    fn default() -> (s: Self)
        ensures
            s@.mass == 0,
            s@.intents == Map::<Intent, int>::empty(),
    {
        Substance { mass: 0, values: IntentTable::new() }
    }
}

impl Substance {
    /// A substance of the given mass that carries no intent.
    pub fn new(mass: i32) -> (s: Self)
        ensures
            s@.mass == mass,
            s@.intents == Map::<Intent, int>::empty(),
    {
        let mut s = Substance::default();
        s.mass = mass;
        s
    }

    /// The mass of the substance.
    pub fn mass(&self) -> (m: i32)
        ensures
            m == self@.mass,
    {
        self.mass
    }

    /// The quantity recorded for `intent`, if any has been recorded.
    pub fn get(&self, intent: Intent) -> (r: Option<i32>)
        ensures
            r is Some <==> self@.intents.contains_key(intent),
            r matches Some(v) ==> v == self@.intents[intent],
    {
        match self.values.get(&intent) {
            Some(v) => Some(*v),
            None => None,
        }
    }

    /// The quantity of `intent`, zero where none is recorded.
    pub fn level(&self, intent: Intent) -> (r: i32)
        ensures
            r == self@.level(intent),
    {
        match self.values.get(&intent) {
            Some(v) => *v,
            None => 0,
        }
    }

    /// Records `value` as the quantity of `intent`. Kept private: callers go
    /// through `with` or `add`.
    fn set(&mut self, intent: Intent, value: i32)
        ensures
            final(self)@ == old(self)@.put(intent, value as int),
    {
        self.values.insert(intent, value);
    }

    /// The same substance with `amount` of `intent`, which it must not yet
    /// record.
    pub fn with(self, intent: Intent, amount: i32) -> (s: Self)
        requires
            !self@.intents.contains_key(intent),
        ensures
            s@ == self@.put(intent, amount as int),
    {
        let mut s = self;
        s.set(intent, amount);
        s
    }

    /// Whether a positive quantity of `intent` is held.
    pub fn has(&self, intent: Intent) -> (r: bool)
        ensures
            r == self@.has(intent),
    {
        self.level(intent) > 0
    }

    /// Removes the record of `intent`, returning the quantity it held.
    pub fn clear(&mut self, intent: Intent) -> (r: i32)
        ensures
            r == old(self)@.level(intent),
            final(self)@ == old(self)@.without(intent),
    {
        match self.values.remove(&intent) {
            Some(v) => v,
            None => 0,
        }
    }

    /// Adds `amount` of `intent`, using the mass as a soft cap: the further
    /// the quantity climbs past multiples of the mass, the more input each
    /// further unit costs. What cannot buy a whole unit is lost.
    pub fn add(&mut self, intent: Intent, amount: i32)
        requires
            spec_add(old(self)@, intent, amount as int) is Some,
        ensures
            final(self)@ == spec_add(old(self)@, intent, amount as int)->0,
    {
        if amount == 0 {
            return;
        }
        let value = self.level(intent);
        match soft_add_value(value, amount, self.mass) {
            Some(r) => self.set(intent, r),
            None => {},
        }
    }

    /// Adds `amount` of `intent` with no cap.
    fn add_flat(&mut self, intent: Intent, amount: i32)
        requires
            spec_add_flat(old(self)@, intent, amount as int) is Some,
        ensures
            final(self)@ == spec_add_flat(old(self)@, intent, amount as int)->0,
    {
        if amount == 0 {
            return;
        }
        let value = self.level(intent);
        self.set(intent, value + amount);
    }

    /// Removes `amount` of `intent`; a positive amount may not exceed what is
    /// held.
    pub fn sub(&mut self, intent: Intent, amount: i32)
        requires
            spec_sub(old(self)@, intent, amount as int) is Some,
        ensures
            final(self)@ == spec_sub(old(self)@, intent, amount as int)->0,
    {
        if amount == 0 {
            return;
        }
        let value = self.level(intent);
        self.set(intent, value - amount);
    }

    /// Changes the quantity of `intent` by `delta`: a negative delta is
    /// subtracted, a non-negative one added under the soft cap.
    pub fn modify(&mut self, intent: Intent, delta: i32)
        requires
            spec_modify(old(self)@, intent, delta as int) is Some,
        ensures
            final(self)@ == spec_modify(old(self)@, intent, delta as int)->0,
    {
        if delta < 0 {
            proof {
                lemma_view_valid(self);
            }
            self.sub(intent, -delta);
        } else {
            self.add(intent, delta);
        }
    }

    /// Moves all of `intent` into `to`, where it is added under `to`'s soft
    /// cap; no record of `intent` is left here.
    pub fn push(&mut self, intent: Intent, to: &mut Self)
        requires
            spec_push(old(self)@, intent, old(to)@) is Some,
        ensures
            (final(self)@, final(to)@) == spec_push(old(self)@, intent, old(to)@)->0,
    {
        let amount = self.clear(intent);
        to.add(intent, amount);
    }

    /// Shares the combined quantity of `intent` between this substance and
    /// `other` in proportion to their masses, rounding towards this one.
    pub fn balance(&mut self, intent: Intent, other: &mut Substance)
        requires
            spec_balance(old(self)@, intent, old(other)@) is Some,
        ensures
            (final(self)@, final(other)@) == spec_balance(old(self)@, intent, old(other)@)->0,
    {
        match balanced_shares(self.level(intent), other.level(intent), self.mass, other.mass) {
            Some((self_val, other_val)) => {
                self.set(intent, self_val);
                other.set(intent, other_val);
            },
            None => {},
        }
    }

    /// Whether `add` would accept `amount` of `intent`.
    pub fn can_add(&self, intent: Intent, amount: i32) -> (ok: bool)
        ensures
            ok == spec_add(self@, intent, amount as int) is Some,
    {
        soft_add_value(self.level(intent), amount, self.mass).is_some()
    }

    /// Whether `push` would accept moving `intent` into `to`.
    pub fn can_push(&self, intent: Intent, to: &Substance) -> (ok: bool)
        ensures
            ok == spec_push(self@, intent, to@) is Some,
    {
        to.can_add(intent, self.level(intent))
    }

    /// Whether `balance` would accept sharing `intent` with `other`.
    pub fn can_balance(&self, intent: Intent, other: &Substance) -> (ok: bool)
        ensures
            ok == spec_balance(self@, intent, other@) is Some,
    {
        balanced_shares(self.level(intent), other.level(intent), self.mass, other.mass).is_some()
    }
}

/// One unit each of `a` and `b` react into two of `into`; `None`, with the
/// substance untouched, where that reaction is refused.
fn react(s: &mut Substance, a: Intent, b: Intent, into: Intent) -> (r: Option<()>)
    requires
        a != b,
        a != into,
        b != into,
    ensures
        r is Some <==> spec_react(old(s)@, a, b, into) is Some,
        r is Some ==> final(s)@ == spec_react(old(s)@, a, b, into)->0,
        r is None ==> final(s)@ == old(s)@,
{
    let la = s.level(a);
    let lb = s.level(b);
    if la < 1 || lb < 1 {
        return None;
    }
    let li = s.level(into);
    match soft_add_value(li, 2, s.mass) {
        None => None,
        Some(_) => {
            s.sub(a, 1);
            s.sub(b, 1);
            s.add(into, 2);
            Some(())
        },
    }
}

/// Part of `source` turns into `dest`, as `spec_becomes` says. Returns
/// whether anything moved; `None`, with the substance untouched, where the
/// step is refused.
fn becomes(
    s: &mut Substance,
    source: Intent,
    dest: Intent,
    target_percent: i32,
    speed_percent: i32,
) -> (r: Option<bool>)
    requires
        source != dest,
        0 <= target_percent <= 100,
        0 <= speed_percent <= 100,
    ensures
        ({
            let expected = spec_becomes(
                old(s)@,
                source,
                dest,
                target_percent as int,
                speed_percent as int,
            );
            &&& r is Some <==> expected is Some
            &&& r matches Some(fired) ==> {
                &&& final(s)@ == expected->0
                &&& fired == becomes_fires(old(s)@, source, dest, target_percent as int)
            }
        }),
        r is None ==> final(s)@ == old(s)@,
{
    match s.get(source) {
        None => Some(false),
        Some(val) => {
            assert(-0x80_0000_0000 <= val as i64 * target_percent as i64 <= 0x80_0000_0000)
                by (nonlinear_arith)
                requires
                    i32::MIN <= val <= i32::MAX,
                    0 <= target_percent <= 100,
            ;
            let target_val: i64 = (val as i64 * target_percent as i64) / 100;
            let dest_val: i64 = s.level(dest) as i64;
            if dest_val < target_val {
                assert(-0x1_0000_0000_0000 <= (target_val - dest_val) * speed_percent as i64
                    <= 0x1_0000_0000_0000) by (nonlinear_arith)
                    requires
                        -0x10_0000_0000 <= target_val - dest_val <= 0x10_0000_0000,
                        0 <= speed_percent <= 100,
                ;
                let raw: i64 = ((target_val - dest_val) * speed_percent as i64) / 100;
                let delta: i64 = if raw > 1 { raw } else { 1 };
                if delta > val as i64 || dest_val + delta > i32::MAX as i64 {
                    return None;
                }
                s.sub(source, delta as i32);
                s.add_flat(dest, delta as i32);
                Some(true)
            } else {
                Some(false)
            }
        },
    }
}

/// When both `a` and `b` are held, one unit of each reacts into `into`.
fn merge_one(s: &mut Substance, a: Intent, b: Intent, into: Intent) -> (r: Option<bool>)
    requires
        a != b,
        a != into,
        b != into,
    ensures
        r is Some <==> spec_merge_one(old(s)@, a, b, into) is Some,
        r matches Some(fired) ==> {
            &&& final(s)@ == spec_merge_one(old(s)@, a, b, into)->0
            &&& fired == (old(s)@.has(a) && old(s)@.has(b))
        },
        r is None ==> final(s)@ == old(s)@,
{
    if s.has(a) && s.has(b) {
        match react(s, a, b, into) {
            Some(()) => Some(true),
            None => None,
        }
    } else {
        Some(false)
    }
}

/// When `into` falls short of `percent` percent of the lesser of `a` and
/// `b`, one unit of each reacts into `into`.
fn merges(s: &mut Substance, a: Intent, b: Intent, into: Intent, percent: i32) -> (r: Option<bool>)
    requires
        a != b,
        a != into,
        b != into,
        0 <= percent <= 100,
    ensures
        r is Some <==> spec_merges(old(s)@, a, b, into, percent as int) is Some,
        r matches Some(fired) ==> {
            &&& final(s)@ == spec_merges(old(s)@, a, b, into, percent as int)->0
            &&& fired == merges_fires(old(s)@, a, b, into, percent as int)
        },
        r is None ==> final(s)@ == old(s)@,
{
    let la = s.level(a);
    let lb = s.level(b);
    let least: i64 = if la <= lb { la as i64 } else { lb as i64 };
    assert(-0x80_0000_0000 <= least * percent as i64 <= 0x80_0000_0000) by (nonlinear_arith)
        requires
            i32::MIN <= least <= i32::MAX,
            0 <= percent <= 100,
    ;
    let target: i64 = (least * percent as i64) / 100;
    if (s.level(into) as i64) < target {
        match react(s, a, b, into) {
            Some(()) => Some(true),
            None => None,
        }
    } else {
        Some(false)
    }
}

/// Runs the reactions a substance undergoes on its own, step by step,
/// stopping at the first refused step with the substance partly reacted.
fn react_within(substance: &mut Substance) -> (r: Option<bool>)
    ensures
        r is Some <==> spec_internal_interaction(old(substance)@) is Some,
        r matches Some(changed) ==> {
            &&& final(substance)@ == spec_internal_interaction(old(substance)@)->0
            &&& changed == (final(substance)@ != old(substance)@)
        },
{
    let ghost s0 = substance@;
    let f1 = match becomes(substance, Intent::Plant, Intent::Leaf, 5, 10) {
        Some(f) => f,
        None => return None,
    };
    let f2 = match becomes(substance, Intent::Plant, Intent::Growth, 2, 10) {
        Some(f) => f,
        None => return None,
    };
    let f3 = match merge_one(substance, Intent::Leaf, Intent::Air, Intent::Plant) {
        Some(f) => f,
        None => return None,
    };
    let f4 = match merges(substance, Intent::Leaf, Intent::Growth, Intent::AbsorbAir, 90) {
        Some(f) => f,
        None => return None,
    };
    proof {
        if f3 {
            assert(substance@.level(Intent::Air) == s0.level(Intent::Air) - 1);
        } else if f1 || f2 {
            assert(substance@.level(Intent::Plant) < s0.level(Intent::Plant));
        } else if f4 {
            assert(substance@.level(Intent::Leaf) == s0.level(Intent::Leaf) - 1);
        }
    }
    Some(f1 || f2 || f3 || f4)
}

/// Runs the reactions a substance undergoes on its own (see
/// `spec_internal_interaction`). Returns `Some(changed)`, where `changed`
/// says whether the substance is any different afterwards, or `None`, with
/// the substance untouched, where a step is refused.
pub fn try_internal_interaction(substance: &mut Substance) -> (r: Option<bool>)
    ensures
        r is Some <==> spec_internal_interaction(old(substance)@) is Some,
        r matches Some(changed) ==> {
            &&& final(substance)@ == spec_internal_interaction(old(substance)@)->0
            &&& changed == (final(substance)@ != old(substance)@)
        },
        r is None ==> final(substance)@ == old(substance)@,
{
    let mut work = substance.clone();
    match react_within(&mut work) {
        Some(changed) => {
            *substance = work;
            Some(changed)
        },
        None => None,
    }
}

/// Runs the reactions a substance undergoes on its own (see
/// `spec_internal_interaction`), and says whether the substance changed.
pub fn internal_interaction(substance: &mut Substance) -> (changed: bool)
    requires
        spec_internal_interaction(old(substance)@) is Some,
    ensures
        final(substance)@ == spec_internal_interaction(old(substance)@)->0,
        changed == (final(substance)@ != old(substance)@),
{
    match react_within(substance) {
        Some(changed) => changed,
        None => false,
    }
}

/// The share of a quantity `held` that a fragment of mass `fragment_mass`
/// takes from a substance of mass `whole_mass`.
fn share(held: i32, fragment_mass: i32, whole_mass: i32) -> (d: i32)
    requires
        0 < fragment_mass < whole_mass,
    ensures
        d == fragment_share(held as int, fragment_mass as int, whole_mass as int),
{
    proof {
        lemma_share_bounds(held as int, fragment_mass as int, whole_mass as int);
    }
    assert(-0x4000_0000_0000_0000 <= held as i64 * fragment_mass as i64 <= 0x4000_0000_0000_0000)
        by (nonlinear_arith)
        requires
            i32::MIN <= held <= i32::MAX,
            0 < fragment_mass <= i32::MAX,
    ;
    let mut delta: i64 = (held as i64 * fragment_mass as i64) / (whole_mass as i64);
    if held > 2 {
        if delta < 1 {
            delta = 1;
        }
        if delta > held as i64 - 1 {
            delta = held as i64 - 1;
        }
    }
    delta as i32
}

/// Splits `substance` in two by mass, without changing it: returns what
/// remains and the fragment of mass `fragment_mass`. Each intent goes with the
/// fragment in proportion to mass, rounded towards zero, except that a
/// quantity above two always sends at least one unit and keeps at least one.
pub fn fragment_pure(substance: &Substance, fragment_mass: i32) -> (r: (Substance, Substance))
    requires
        0 < fragment_mass < substance@.mass,
    ensures
        r.0@ == fragment_remainder(substance@, fragment_mass as int),
        r.1@ == fragment_piece(substance@, fragment_mass as int),
{
    let whole_mass = substance.mass;
    let mut remainder = Substance::default();
    remainder.mass = whole_mass - fragment_mass;
    let mut fragment = Substance::default();
    fragment.mass = fragment_mass;
    let ghost rem_spec = fragment_remainder(substance@, fragment_mass as int);
    let ghost frag_spec = fragment_piece(substance@, fragment_mass as int);
    let mut c: u8 = 0;
    while c < INTENT_COUNT
        invariant
            0 <= c <= INTENT_COUNT,
            0 < fragment_mass < whole_mass,
            whole_mass == substance@.mass,
            rem_spec == fragment_remainder(substance@, fragment_mass as int),
            frag_spec == fragment_piece(substance@, fragment_mass as int),
            remainder@.mass == rem_spec.mass,
            fragment@.mass == frag_spec.mass,
            forall|i: Intent| #[trigger] remainder@.intents.contains_key(i) <==> (code(i) < c
                && rem_spec.intents.contains_key(i)),
            forall|i: Intent| #[trigger] fragment@.intents.contains_key(i) <==> (code(i) < c
                && frag_spec.intents.contains_key(i)),
            forall|i: Intent| #[trigger] remainder@.intents.contains_key(i) ==> remainder@.intents[i]
                == rem_spec.intents[i],
            forall|i: Intent| #[trigger] fragment@.intents.contains_key(i) ==> fragment@.intents[i]
                == frag_spec.intents[i],
        decreases INTENT_COUNT - c,
    {
        let intent = intent_from_code(c);
        proof {
            lemma_code_bijective();
        }
        match substance.get(intent) {
            Some(held) => {
                let delta = share(held, fragment_mass, whole_mass);
                proof {
                    lemma_share_bounds(held as int, fragment_mass as int, whole_mass as int);
                }
                if delta > 0 {
                    fragment.set(intent, delta);
                    remainder.set(intent, held - delta);
                } else {
                    remainder.set(intent, held);
                }
            },
            None => {},
        }
        c = c + 1;
    }
    assert(remainder@.intents =~= rem_spec.intents);
    assert(fragment@.intents =~= frag_spec.intents);
    (remainder, fragment)
}

/// Splits a fragment of mass `fragment_mass` off `substance` and returns it.
/// Each intent goes with the fragment in proportion to mass, rounded towards
/// zero, except that a quantity above two always sends at least one unit and
/// keeps at least one.
pub fn fragment(substance: &mut Substance, fragment_mass: i32) -> (piece: Substance)
    requires
        0 < fragment_mass < old(substance)@.mass,
    ensures
        final(substance)@ == fragment_remainder(old(substance)@, fragment_mass as int),
        piece@ == fragment_piece(old(substance)@, fragment_mass as int),
{
    let whole_mass = substance.mass;
    substance.mass = whole_mass - fragment_mass;
    let mut piece = Substance::default();
    piece.mass = fragment_mass;
    let ghost s0 = old(substance)@;
    let ghost rem_spec = fragment_remainder(s0, fragment_mass as int);
    let ghost frag_spec = fragment_piece(s0, fragment_mass as int);
    let mut c: u8 = 0;
    while c < INTENT_COUNT
        invariant
            0 <= c <= INTENT_COUNT,
            0 < fragment_mass < whole_mass,
            whole_mass == s0.mass,
            rem_spec == fragment_remainder(s0, fragment_mass as int),
            frag_spec == fragment_piece(s0, fragment_mass as int),
            substance@.mass == rem_spec.mass,
            piece@.mass == frag_spec.mass,
            forall|i: Intent| #[trigger]
                substance@.intents.contains_key(i) <==> s0.intents.contains_key(i),
            forall|i: Intent| #[trigger] substance@.intents.contains_key(i) ==> substance@.intents[i]
                == (if code(i) < c { rem_spec.intents[i] } else { s0.intents[i] }),
            forall|i: Intent| #[trigger] piece@.intents.contains_key(i) <==> (code(i) < c
                && frag_spec.intents.contains_key(i)),
            forall|i: Intent| #[trigger] piece@.intents.contains_key(i) ==> piece@.intents[i]
                == frag_spec.intents[i],
        decreases INTENT_COUNT - c,
    {
        let intent = intent_from_code(c);
        proof {
            lemma_code_bijective();
        }
        match substance.get(intent) {
            Some(held) => {
                let delta = share(held, fragment_mass, whole_mass);
                proof {
                    lemma_share_bounds(held as int, fragment_mass as int, whole_mass as int);
                }
                if delta > 0 {
                    piece.set(intent, delta);
                    substance.set(intent, held - delta);
                }
            },
            None => {},
        }
        c = c + 1;
    }
    assert(substance@.intents =~= rem_spec.intents);
    assert(piece@.intents =~= frag_spec.intents);
    piece
}

/// Whether the union of two substances can be held in `i32`s.
pub fn can_merge(substance: &Substance, add: &Substance) -> (ok: bool)
    ensures
        ok == combined_fits(substance@, add@),
{
    if (substance.mass as i64) + (add.mass as i64) > i32::MAX as i64
        || (substance.mass as i64) + (add.mass as i64) < i32::MIN as i64 {
        return false;
    }
    let mut c: u8 = 0;
    while c < INTENT_COUNT
        invariant
            0 <= c <= INTENT_COUNT,
            fits(substance@.mass + add@.mass),
            forall|i: Intent| code(i) < c && #[trigger] add@.intents.contains_key(i) ==> fits(
                substance@.level(i) + add@.intents[i],
            ),
        decreases INTENT_COUNT - c,
    {
        let intent = intent_from_code(c);
        proof {
            lemma_code_bijective();
        }
        match add.get(intent) {
            Some(v) => {
                let total: i64 = substance.level(intent) as i64 + v as i64;
                if total > i32::MAX as i64 || total < i32::MIN as i64 {
                    return false;
                }
            },
            None => {},
        }
        c = c + 1;
    }
    proof {
        lemma_code_bijective();
    }
    true
}

/// Merges `add` into `substance`: masses add, and so do the quantities of
/// every intent either records.
pub fn substance_add(substance: &mut Substance, add: Substance)
    requires
        combined_fits(old(substance)@, add@),
    ensures
        final(substance)@ == combined(old(substance)@, add@),
{
    let ghost s0 = old(substance)@;
    let ghost target = combined(s0, add@);
    substance.mass = substance.mass + add.mass;
    let mut c: u8 = 0;
    while c < INTENT_COUNT
        invariant
            0 <= c <= INTENT_COUNT,
            combined_fits(s0, add@),
            target == combined(s0, add@),
            substance@.mass == target.mass,
            forall|i: Intent| #[trigger] substance@.intents.contains_key(i) <==> (
                s0.intents.contains_key(i) || (code(i) < c && add@.intents.contains_key(i))),
            forall|i: Intent| #[trigger] substance@.intents.contains_key(i) ==> substance@.intents[i]
                == (if code(i) < c { target.intents[i] } else { s0.intents[i] }),
        decreases INTENT_COUNT - c,
    {
        let intent = intent_from_code(c);
        proof {
            lemma_code_bijective();
        }
        match add.get(intent) {
            Some(v) => {
                let current = substance.level(intent);
                substance.set(intent, current + v);
            },
            None => {},
        }
        c = c + 1;
    }
    proof {
        lemma_code_bijective();
    }
    assert(substance@.intents =~= target.intents);
}

/// The least of three quantities.
fn min_of_three(a: i32, b: i32, c: i32) -> (r: i32)
    ensures
        r == min(min(a as int, b as int), c as int),
{
    let ab = if a <= b { a } else { b };
    if ab <= c { ab } else { c }
}

/// `a`'s intent to absorb air takes mass from `b`'s air into `out` (see
/// `spec_absorb`). Returns whether it could; where not, the substances are
/// left partly changed.
fn absorb(a: &mut Substance, b: &mut Substance, out: &mut Substance) -> (ok: bool)
    ensures
        ok == spec_absorb(old(a)@, old(b)@, old(out)@) is Some,
        ok ==> (final(a)@, final(b)@, final(out)@) == spec_absorb(old(a)@, old(b)@, old(out)@)->0,
{
    if a.has(Intent::AbsorbAir) && b.has(Intent::Air) && 1 < b.mass {
        let delta = min_of_three(
            check_intent(a, Intent::AbsorbAir),
            check_intent(b, Intent::Air),
            b.mass - 1,
        );
        modify_intent(a, Intent::AbsorbAir, -delta);
        modify_intent(b, Intent::Air, -delta);
        let piece = fragment(b, delta);
        if !can_merge(out, &piece) {
            return false;
        }
        substance_add(out, piece);
    }
    true
}

/// A leaf draws air from `source` (see `spec_gather`). Returns whether it
/// could; where not, neither substance has changed.
fn gather(
    leaf: &mut Substance,
    source: &mut Substance,
    leaf_level: i32,
    source_air: i32,
    own_air: i32,
) -> (ok: bool)
    ensures
        ok == spec_gather(
            old(leaf)@,
            old(source)@,
            leaf_level as int,
            source_air as int,
            own_air as int,
        ) is Some,
        ok ==> (final(leaf)@, final(source)@) == spec_gather(
            old(leaf)@,
            old(source)@,
            leaf_level as int,
            source_air as int,
            own_air as int,
        )->0,
        !ok ==> final(leaf)@ == old(leaf)@ && final(source)@ == old(source)@,
{
    if 0 < leaf_level && 0 < source_air {
        let least: i64 = if leaf_level <= source_air { leaf_level as i64 } else { source_air as i64 };
        assert(0 <= least * LEAF_GATHER_PERCENT as i64 <= 0x80_0000_0000) by (nonlinear_arith)
            requires 0 < least <= i32::MAX, LEAF_GATHER_PERCENT == 100;
        let target: i64 = least * LEAF_GATHER_PERCENT as i64 / 100;
        let delta: i64 = target - own_air as i64;
        if 0 < delta {
            if delta > check_intent(source, Intent::Air) as i64 {
                return false;
            }
            match soft_add_value(check_intent(leaf, Intent::Air), delta as i32, leaf.mass) {
                None => {
                    return false;
                },
                Some(_) => {},
            }
            modify_intent(source, Intent::Air, -(delta as i32));
            modify_intent(leaf, Intent::Air, delta as i32);
        }
    }
    true
}

/// Runs an interaction step by step, stopping at the first refused step with
/// the substances partly changed.
fn interact(
    interaction_type: InteractionType,
    a: &mut Substance,
    b: &mut Substance,
    out: Option<&mut Substance>,
) -> (ok: bool)
    ensures
        out is None ==> {
            let r = spec_interaction(interaction_type, old(a)@, old(b)@, None);
            &&& ok == r is Some
            &&& ok ==> final(a)@ == (r->0).0 && final(b)@ == (r->0).1
        },
        out matches Some(o) ==> {
            let r = spec_interaction(interaction_type, old(a)@, old(b)@, Some(o@));
            &&& ok == r is Some
            &&& ok ==> final(a)@ == (r->0).0 && final(b)@ == (r->0).1 && (r->0).2 == Some(final(o)@)
        },
{
    if interaction_type != InteractionType::Contact {
        return true;
    }
    match out {
        Some(o) => {
            if !absorb(a, b, o) {
                return false;
            }
            if !absorb(b, a, o) {
                return false;
            }
        },
        None => {},
    }
    let a_leaf = check_intent(a, Intent::Leaf);
    let b_leaf = check_intent(b, Intent::Leaf);
    let a_air = check_intent(a, Intent::Air);
    let b_air = check_intent(b, Intent::Air);
    if !gather(a, b, a_leaf, b_air, a_air) {
        return false;
    }
    gather(b, a, b_leaf, a_air, b_air)
}

/// Runs an interaction between `a` and `b` (see `spec_interaction`), with
/// `out`, where given, receiving any matter that is absorbed. Returns whether
/// it could; where not, all three substances are left untouched.
pub fn try_interaction(
    interaction_type: InteractionType,
    a: &mut Substance,
    b: &mut Substance,
    out: Option<&mut Substance>,
) -> (ok: bool)
    ensures
        out is None ==> {
            let r = spec_interaction(interaction_type, old(a)@, old(b)@, None);
            &&& ok == r is Some
            &&& ok ==> final(a)@ == (r->0).0 && final(b)@ == (r->0).1
        },
        out matches Some(o) ==> {
            let r = spec_interaction(interaction_type, old(a)@, old(b)@, Some(o@));
            &&& ok == r is Some
            &&& ok ==> final(a)@ == (r->0).0 && final(b)@ == (r->0).1 && (r->0).2 == Some(final(o)@)
            &&& !ok ==> final(o)@ == o@
        },
        !ok ==> final(a)@ == old(a)@ && final(b)@ == old(b)@,
{
    let mut a2 = a.clone();
    let mut b2 = b.clone();
    match out {
        Some(o) => {
            let mut o2 = o.clone();
            if interact(interaction_type, &mut a2, &mut b2, Some(&mut o2)) {
                *a = a2;
                *b = b2;
                *o = o2;
                true
            } else {
                false
            }
        },
        None => {
            if interact(interaction_type, &mut a2, &mut b2, None) {
                *a = a2;
                *b = b2;
                true
            } else {
                false
            }
        },
    }
}

/// Runs an interaction between `a` and `b` (see `spec_interaction`), with
/// `out`, where given, receiving any matter that is absorbed.
pub fn interaction(
    interaction_type: InteractionType,
    a: &mut Substance,
    b: &mut Substance,
    out: Option<&mut Substance>,
)
    requires
        out is None ==> spec_interaction(interaction_type, old(a)@, old(b)@, None) is Some,
        out matches Some(o) ==> spec_interaction(interaction_type, old(a)@, old(b)@, Some(o@)) is Some,
    ensures
        out is None ==> {
            let r = spec_interaction(interaction_type, old(a)@, old(b)@, None);
            final(a)@ == (r->0).0 && final(b)@ == (r->0).1
        },
        out matches Some(o) ==> {
            let r = spec_interaction(interaction_type, old(a)@, old(b)@, Some(o@));
            final(a)@ == (r->0).0 && final(b)@ == (r->0).1 && (r->0).2 == Some(final(o)@)
        },
{
    interact(interaction_type, a, b, out);
}

/// The quantity of `intent` held by `substance`, zero where none is recorded.
pub fn check_intent(substance: &Substance, intent: Intent) -> (r: i32)
    ensures
        r == substance@.level(intent),
{
    substance.level(intent)
}

/// Whether `substance` holds a positive quantity of `intent`.
pub fn has_intent(substance: &Substance, intent: Intent) -> (r: bool)
    ensures
        r == substance@.has(intent),
{
    substance.has(intent)
}

/// Changes the quantity of `intent` in `substance` by `delta`, as
/// `Substance::modify` does.
pub fn modify_intent(substance: &mut Substance, intent: Intent, delta: i32)
    requires
        spec_modify(old(substance)@, intent, delta as int) is Some,
    ensures
        final(substance)@ == spec_modify(old(substance)@, intent, delta as int)->0,
{
    substance.modify(intent, delta);
}

impl std::ops::Index<Intent> for Substance {
    type Output = i32;

    fn index(&self, intent: Intent) -> (r: &i32)
        ensures
            *r == self@.level(intent),
    {
        match self.values.get(&intent) {
            Some(v) => v,
            None => &0,
        }
    }
}

} // verus!
