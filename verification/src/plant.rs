use vstd::prelude::*;
use crate::alchemy::{
    Substance, can_merge, substance_add, try_interaction, try_internal_interaction,
};
use crate::intent::{Intent, InteractionType};
use crate::model::{empty_substance, spec_sprout_leaf, spec_stem_tick, spec_tend_leaf, StemTick};

verus! {

/// A step of a plant's growth that the rules of intent refuse.
#[derive(Debug, Clone, Copy, PartialEq, Eq, Structural)]
pub struct Refused;

/// What a stem's tick did.
pub enum StemAction {
    /// The stem tried to sprout a leaf but gathered no mass; only its own
    /// reactions and any air it drew remain.
    Rested,
    /// The stem's leaf is gone: forget it.
    Unlinked,
    /// The stem tended its leaf.
    Tended,
    /// The stem grew a new leaf of this substance.
    Sprouted(Substance),
}

impl View for StemAction {
    type V = StemTick;

    open spec fn view(&self) -> StemTick {
        match self {
            StemAction::Rested => StemTick::Rested,
            StemAction::Unlinked => StemTick::Unlinked,
            StemAction::Tended => StemTick::Tended,
            StemAction::Sprouted(l) => StemTick::Sprouted(l@),
        }
    }
}

/// One tick of a plant's stem (see `spec_stem_tick`): `leaf` is the stem's
/// leaf where it has one that is still present, and `linked` says whether the
/// stem has a leaf at all. Where a step is refused, returns `Err` and leaves
/// every substance untouched.
pub fn stem_tick(
    stem: &mut Substance,
    leaf: Option<&mut Substance>,
    linked: bool,
    air: &mut Substance,
) -> (r: Result<StemAction, Refused>)
    ensures
        leaf is None ==> {
            let expected = spec_stem_tick(old(stem)@, None, linked, old(air)@);
            &&& r is Ok <==> expected is Some
            &&& r matches Ok(action) ==> {
                &&& final(stem)@ == (expected->0).0
                &&& final(air)@ == (expected->0).2
                &&& action@ == (expected->0).3
            }
        },
        leaf matches Some(l) ==> {
            let expected = spec_stem_tick(old(stem)@, Some(l@), linked, old(air)@);
            &&& r is Ok <==> expected is Some
            &&& r matches Ok(action) ==> {
                &&& final(stem)@ == (expected->0).0
                &&& (expected->0).1 == Some(final(l)@)
                &&& final(air)@ == (expected->0).2
                &&& action@ == (expected->0).3
            }
            &&& r is Err ==> final(l)@ == l@
        },
        r is Err ==> final(stem)@ == old(stem)@ && final(air)@ == old(air)@,
{
    let mut new_stem = stem.clone();
    if try_internal_interaction(&mut new_stem).is_none() {
        return Err(Refused);
    }
    let action = match leaf {
        Some(l) => {
            match tend_leaf(&mut new_stem, l, air) {
                Ok(()) => StemAction::Tended,
                Err(e) => return Err(e),
            }
        },
        None => {
            if linked {
                StemAction::Unlinked
            } else {
                match sprout_leaf(&mut new_stem, air) {
                    Ok(Some(new_leaf)) => StemAction::Sprouted(new_leaf),
                    Ok(None) => StemAction::Rested,
                    Err(e) => return Err(e),
                }
            }
        },
    };
    *stem = new_stem;
    Ok(action)
}

/// One tick of a stem whose leaf is in place (see `spec_tend_leaf`). Where a
/// step is refused, returns `Err` and leaves all three substances untouched.
pub fn tend_leaf(
    stem: &mut Substance,
    leaf: &mut Substance,
    air: &mut Substance,
) -> (r: Result<(), Refused>)
    ensures
        r is Ok <==> spec_tend_leaf(old(stem)@, old(leaf)@, old(air)@) is Some,
        r is Ok ==> (final(stem)@, final(leaf)@, final(air)@) == spec_tend_leaf(
            old(stem)@,
            old(leaf)@,
            old(air)@,
        )->0,
        r is Err ==> {
            &&& final(stem)@ == old(stem)@
            &&& final(leaf)@ == old(leaf)@
            &&& final(air)@ == old(air)@
        },
{
    let mut new_stem = stem.clone();
    let mut new_leaf = leaf.clone();
    let mut new_air = air.clone();
    match tend(&mut new_stem, &mut new_leaf, &mut new_air) {
        Ok(()) => {
            *stem = new_stem;
            *leaf = new_leaf;
            *air = new_air;
            Ok(())
        },
        Err(e) => Err(e),
    }
}

/// The steps of tending a leaf, stopping at the first refused one.
fn tend(stem: &mut Substance, leaf: &mut Substance, air: &mut Substance) -> (r: Result<(), Refused>)
    ensures
        r is Ok <==> spec_tend_leaf(old(stem)@, old(leaf)@, old(air)@) is Some,
        r is Ok ==> (final(stem)@, final(leaf)@, final(air)@) == spec_tend_leaf(
            old(stem)@,
            old(leaf)@,
            old(air)@,
        )->0,
{
    let mut temp = Substance::default();
    assert(temp@ == empty_substance());
    if !try_interaction(InteractionType::Contact, leaf, air, Some(&mut temp)) {
        return Err(Refused);
    }
    if !can_merge(leaf, &temp) {
        return Err(Refused);
    }
    substance_add(leaf, temp);
    if !leaf.can_push(Intent::Plant, stem) {
        return Err(Refused);
    }
    leaf.push(Intent::Plant, stem);
    if !stem.can_balance(Intent::Leaf, leaf) {
        return Err(Refused);
    }
    stem.balance(Intent::Leaf, leaf);
    match try_internal_interaction(leaf) {
        Some(_) => Ok(()),
        None => Err(Refused),
    }
}

/// A stem without a leaf tries to grow one (see `spec_sprout_leaf`): returns
/// the new leaf's substance, or `None` where no mass was gathered. Where a
/// step is refused, returns `Err` and leaves both substances untouched.
pub fn sprout_leaf(stem: &mut Substance, air: &mut Substance) -> (r: Result<Option<Substance>, Refused>)
    ensures
        r is Ok <==> spec_sprout_leaf(old(stem)@, old(air)@) is Some,
        r matches Ok(leaf) ==> {
            let expected = spec_sprout_leaf(old(stem)@, old(air)@)->0;
            &&& final(stem)@ == expected.0
            &&& final(air)@ == expected.1
            &&& leaf is Some == expected.2 is Some
            &&& leaf matches Some(l) ==> l@ == expected.2->0
        },
        r is Err ==> final(stem)@ == old(stem)@ && final(air)@ == old(air)@,
{
    let mut new_stem = stem.clone();
    let mut new_air = air.clone();
    match sprout(&mut new_stem, &mut new_air) {
        Ok(leaf) => {
            *stem = new_stem;
            *air = new_air;
            Ok(leaf)
        },
        Err(e) => Err(e),
    }
}

/// The steps of sprouting a leaf, stopping at the first refused one.
fn sprout(stem: &mut Substance, air: &mut Substance) -> (r: Result<Option<Substance>, Refused>)
    ensures
        r is Ok <==> spec_sprout_leaf(old(stem)@, old(air)@) is Some,
        r matches Ok(leaf) ==> {
            let expected = spec_sprout_leaf(old(stem)@, old(air)@)->0;
            &&& final(stem)@ == expected.0
            &&& final(air)@ == expected.1
            &&& leaf is Some == expected.2 is Some
            &&& leaf matches Some(l) ==> l@ == expected.2->0
        },
{
    let mut leaf_substance = Substance::default();
    assert(leaf_substance@ == empty_substance());
    if !try_interaction(InteractionType::Contact, stem, air, Some(&mut leaf_substance)) {
        return Err(Refused);
    }
    if leaf_substance.mass() <= 0 {
        return Ok(None);
    }
    if !stem.can_push(Intent::Air, &leaf_substance) {
        return Err(Refused);
    }
    stem.push(Intent::Air, &mut leaf_substance);
    if !stem.can_push(Intent::Growth, &leaf_substance) {
        return Err(Refused);
    }
    stem.push(Intent::Growth, &mut leaf_substance);
    Ok(Some(leaf_substance))
}

} // verus!
