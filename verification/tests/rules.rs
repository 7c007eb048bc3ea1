use alchemy::alchemy::{
    can_merge, check_intent, fragment, has_intent, interaction, internal_interaction,
    modify_intent, soft_add_value, substance_add, try_interaction, try_internal_interaction,
    Substance,
};
use alchemy::intent::{Intent, InteractionType};
use alchemy::plant::{sprout_leaf, stem_tick, tend_leaf, Refused, StemAction};

fn total(s: &Substance) -> i64 {
    [Intent::Air, Intent::Plant, Intent::Leaf, Intent::Growth, Intent::AbsorbAir]
        .iter()
        .map(|i| s.level(*i) as i64)
        .sum()
}

#[test]
fn soft_add_is_exact_within_the_cap() {
    assert_eq!(soft_add_value(0, 10, 10), Some(10));
    assert_eq!(soft_add_value(3, 7, 10), Some(10));
}

#[test]
fn soft_add_costs_rise_with_each_bracket() {
    // In the second bracket each unit costs two.
    assert_eq!(soft_add_value(10, 10, 10), Some(15));
    // A mass below one caps at one: 1 + 2 units buy two steps, the rest is lost.
    assert_eq!(soft_add_value(0, 5, 0), Some(2));
    assert_eq!(soft_add_value(0, 5, -7), Some(2));
    // Never more than the amount, never less than the start.
    let r = soft_add_value(37, 1000, 9).unwrap();
    assert!(37 <= r && r <= 1037);
    assert!(r - 37 <= 1000 / 5);
}

#[test]
fn soft_add_refusals() {
    assert_eq!(soft_add_value(5, -1, 10), None);
    assert_eq!(soft_add_value(-10, 1, 10), None);
    assert_eq!(soft_add_value(-10, 0, 10), Some(-10));
    assert_eq!(soft_add_value(-5, 3, 10), Some(-2));
    assert_eq!(soft_add_value(i32::MAX, 1, 1), Some(i32::MAX));
    assert_eq!(soft_add_value(i32::MAX - 1, 100, i32::MAX), None);
}

#[test]
fn new_and_default_are_empty() {
    let s = Substance::new(42);
    assert_eq!(s.mass, 42);
    assert_eq!(s.mass(), 42);
    assert_eq!(s.get(Intent::Air), None);
    let d = Substance::default();
    assert_eq!(d.mass, 0);
    assert_eq!(d[Intent::Leaf], 0);
}

#[test]
fn with_records_and_has_reads() {
    let s = Substance::new(3).with(Intent::Leaf, 4).with(Intent::Air, 0);
    assert_eq!(s.get(Intent::Leaf), Some(4));
    assert_eq!(s.get(Intent::Air), Some(0));
    assert_eq!(s.get(Intent::Plant), None);
    assert!(s.has(Intent::Leaf));
    assert!(!s.has(Intent::Air));
    assert!(has_intent(&s, Intent::Leaf));
    assert!(!has_intent(&s, Intent::Plant));
    assert_eq!(check_intent(&s, Intent::Plant), 0);
}

#[test]
fn adding_nothing_records_nothing() {
    let mut s = Substance::new(10);
    s.add(Intent::Leaf, 0);
    assert_eq!(s.get(Intent::Leaf), None);
    s.sub(Intent::Leaf, 0);
    assert_eq!(s.get(Intent::Leaf), None);
}

#[test]
fn sub_and_modify() {
    let mut s = Substance::new(100).with(Intent::Air, 5);
    s.sub(Intent::Air, 5);
    assert_eq!(s.get(Intent::Air), Some(0));
    s.values.insert(Intent::Air, 10);
    s.modify(Intent::Air, -3);
    assert_eq!(s[Intent::Air], 7);
    s.modify(Intent::Air, 4);
    assert_eq!(s[Intent::Air], 11);
    modify_intent(&mut s, Intent::Air, -11);
    assert_eq!(s.get(Intent::Air), Some(0));
    assert!(s.can_add(Intent::Air, 1));
    assert!(!s.can_add(Intent::Air, -1));
}

#[test]
fn clear_returns_what_was_held() {
    let mut s = Substance::new(1).with(Intent::Leaf, 7);
    assert_eq!(s.clear(Intent::Leaf), 7);
    assert_eq!(s.get(Intent::Leaf), None);
    assert_eq!(s.clear(Intent::Leaf), 0);
}

#[test]
fn push_moves_all_under_the_receivers_cap() {
    let mut a = Substance::new(10).with(Intent::Plant, 30);
    let mut b = Substance::new(100);
    assert!(a.can_push(Intent::Plant, &b));
    a.push(Intent::Plant, &mut b);
    assert_eq!(a.get(Intent::Plant), None);
    assert_eq!(b[Intent::Plant], 30);

    let mut c = Substance::new(100).with(Intent::Plant, 30);
    let mut d = Substance::new(10);
    c.push(Intent::Plant, &mut d);
    assert_eq!(d[Intent::Plant], 20);

    let e = Substance::new(1).with(Intent::Plant, -3);
    assert!(!e.can_push(Intent::Plant, &d));
}

#[test]
fn balance_shares_by_mass_and_conserves() {
    let mut s = Substance::new(30).with(Intent::Leaf, 10);
    let mut o = Substance::new(10);
    s.balance(Intent::Leaf, &mut o);
    assert_eq!(o[Intent::Leaf], 2);
    assert_eq!(s[Intent::Leaf], 8);
    assert_eq!(s.mass + o.mass, 40);

    let mut p = Substance::new(3).with(Intent::Air, 5);
    let mut q = Substance::new(-1);
    p.balance(Intent::Air, &mut q);
    assert_eq!(q[Intent::Air], -2);
    assert_eq!(p[Intent::Air], 7);

    let z = Substance::new(5);
    let w = Substance::new(-5);
    assert!(!z.can_balance(Intent::Air, &w));
    assert!(s.can_balance(Intent::Leaf, &o));
}

#[test]
fn fragment_splits_by_mass() {
    let mut s = Substance::new(10)
        .with(Intent::Air, 10)
        .with(Intent::Leaf, 2)
        .with(Intent::Plant, 1)
        .with(Intent::Growth, 0);
    let piece = fragment(&mut s, 4);
    assert_eq!(piece.mass, 4);
    assert_eq!(s.mass, 6);
    assert_eq!(piece.get(Intent::Air), Some(4));
    assert_eq!(s.get(Intent::Air), Some(6));
    assert_eq!(piece.get(Intent::Leaf), None);
    assert_eq!(s.get(Intent::Leaf), Some(2));
    assert_eq!(s.get(Intent::Plant), Some(1));
    assert_eq!(s.get(Intent::Growth), Some(0));
}

#[test]
fn fragment_keeps_and_sends_at_least_one() {
    let mut s = Substance::new(100).with(Intent::Air, 3).with(Intent::Leaf, 5);
    let piece = fragment(&mut s, 1);
    assert_eq!(piece[Intent::Air], 1);
    assert_eq!(s[Intent::Air], 2);
    let mut t = Substance::new(100).with(Intent::Leaf, 5);
    let piece = fragment(&mut t, 99);
    assert_eq!(piece[Intent::Leaf], 4);
    assert_eq!(t[Intent::Leaf], 1);
    let mut u = Substance::new(10).with(Intent::Leaf, -50);
    let piece = fragment(&mut u, 5);
    assert_eq!(piece.get(Intent::Leaf), None);
    assert_eq!(u[Intent::Leaf], -50);
}

#[test]
fn fragment_then_merge_restores() {
    let mut s = Substance::new(37)
        .with(Intent::Air, 101)
        .with(Intent::Leaf, 2)
        .with(Intent::Growth, 55);
    let piece = fragment(&mut s, 11);
    for i in [Intent::Air, Intent::Leaf, Intent::Growth, Intent::Plant] {
        assert!(s.level(i) + piece.level(i) == [101, 2, 55, 0][match i {
            Intent::Air => 0,
            Intent::Leaf => 1,
            Intent::Growth => 2,
            _ => 3,
        }]);
    }
    assert!(can_merge(&s, &piece));
    substance_add(&mut s, piece);
    assert_eq!(s.mass, 37);
    assert_eq!(s.get(Intent::Air), Some(101));
    assert_eq!(s.get(Intent::Leaf), Some(2));
    assert_eq!(s.get(Intent::Growth), Some(55));
    assert_eq!(s.get(Intent::Plant), None);
}

#[test]
fn substance_add_sums() {
    let mut a = Substance::new(1).with(Intent::Air, 3);
    let b = Substance::new(2).with(Intent::Air, 4).with(Intent::Leaf, 5);
    substance_add(&mut a, b);
    assert_eq!(a.mass, 3);
    assert_eq!(a[Intent::Air], 7);
    assert_eq!(a[Intent::Leaf], 5);
    let big = Substance::new(i32::MAX);
    assert!(!can_merge(&big, &Substance::new(1)));
    let full = Substance::new(0).with(Intent::Air, i32::MAX);
    assert!(!can_merge(&full, &Substance::new(0).with(Intent::Air, 1)));
}

#[test]
fn internal_interaction_reports_change_and_never_gains() {
    let mut s = Substance::default();
    assert!(!internal_interaction(&mut s));
    s.values.insert(Intent::Plant, 10000);
    let before = total(&s);
    assert!(internal_interaction(&mut s));
    assert!(total(&s) <= before);
    assert_eq!(total(&s), 9999);
    assert_eq!(s.mass, 0);
}

#[test]
fn leaf_and_air_make_plant() {
    let mut s = Substance::default();
    s.values.insert(Intent::Leaf, 5);
    s.values.insert(Intent::Air, 3);
    assert_eq!(try_internal_interaction(&mut s), Some(true));
    assert_eq!(s[Intent::Leaf], 4);
    assert_eq!(s[Intent::Air], 2);
    assert_eq!(s[Intent::Plant], 1);
}

#[test]
fn internal_interaction_refusal() {
    let mut s = Substance::default();
    s.values.insert(Intent::Plant, 0);
    s.values.insert(Intent::Leaf, -1000);
    assert_eq!(try_internal_interaction(&mut s), None);
    assert_eq!(s.get(Intent::Plant), Some(0));
    assert_eq!(s.get(Intent::Leaf), Some(-1000));
    assert_eq!(s.get(Intent::Growth), None);
}

#[test]
fn leaf_draws_air() {
    let mut a = Substance::new(100).with(Intent::Leaf, 10);
    let mut b = Substance::new(1000).with(Intent::Air, 50);
    interaction(InteractionType::Contact, &mut a, &mut b, None);
    assert_eq!(a[Intent::Air], 10);
    assert_eq!(b[Intent::Air], 40);
    assert_eq!(a.mass, 100);
    assert_eq!(b.mass, 1000);
}

#[test]
fn interaction_conserves_mass() {
    let mut a = Substance::new(10).with(Intent::AbsorbAir, 10);
    let mut b = Substance::new(10).with(Intent::Air, 10);
    let mut out = Substance::new(0);
    interaction(InteractionType::Contact, &mut a, &mut b, Some(&mut out));
    assert_eq!(a.mass + b.mass + out.mass, 20);
}

#[test]
fn only_contact_interacts() {
    let mut a = Substance::new(100).with(Intent::Leaf, 10);
    let mut b = Substance::new(1000).with(Intent::Air, 50);
    let mut out = Substance::new(0);
    assert!(try_interaction(InteractionType::Life, &mut a, &mut b, Some(&mut out)));
    assert_eq!(a.get(Intent::Air), None);
    assert_eq!(b[Intent::Air], 50);
    assert_eq!(out.mass, 0);
}

#[test]
fn interaction_refusal() {
    let mut a = Substance::new(100).with(Intent::Leaf, 10).with(Intent::Air, -5);
    let mut b = Substance::new(1000).with(Intent::Air, 3);
    assert!(!try_interaction(InteractionType::Contact, &mut a, &mut b, None));
    assert_eq!(a[Intent::Air], -5);
    assert_eq!(b[Intent::Air], 3);
}

#[test]
fn tending_a_leaf() {
    let mut stem = Substance::new(100);
    let mut leaf = Substance::new(10).with(Intent::Plant, 20).with(Intent::Leaf, 30);
    let mut air = Substance::new(1000).with(Intent::Air, 1000);
    assert_eq!(tend_leaf(&mut stem, &mut leaf, &mut air), Ok(()));
    assert_eq!(stem[Intent::Plant], 20);
    assert_eq!(stem[Intent::Leaf], 28);
    assert_eq!(leaf.mass, 10);
    assert_eq!(leaf[Intent::Leaf], 1);
    assert_eq!(leaf[Intent::Air], 19);
    assert_eq!(leaf[Intent::Plant], 2);
    assert_eq!(air.mass, 1000);
    assert_eq!(air[Intent::Air], 970);
    assert_eq!(stem.mass, 100);
    assert_eq!(leaf.mass + air.mass, 1010);
}

#[test]
fn tending_refused_when_masses_cancel() {
    let mut stem = Substance::new(-10);
    let mut leaf = Substance::new(10);
    let mut air = Substance::new(1000).with(Intent::Air, 1000);
    assert_eq!(tend_leaf(&mut stem, &mut leaf, &mut air), Err(Refused));
    assert_eq!(stem.mass, -10);
    assert_eq!(leaf.mass, 10);
    assert_eq!(air[Intent::Air], 1000);
    assert_eq!(air.mass, 1000);
}

#[test]
fn sprouting_a_leaf() {
    let mut stem = Substance::new(10000).with(Intent::Plant, 10000);
    let mut air = Substance::new(100000).with(Intent::Air, 100000);
    // Nothing to absorb with yet.
    assert!(sprout_leaf(&mut stem, &mut air).unwrap().is_none());
    assert!(internal_interaction(&mut stem));
    assert_eq!(stem[Intent::AbsorbAir], 2);
    let leaf = sprout_leaf(&mut stem, &mut air).unwrap().unwrap();
    assert_eq!(leaf.mass, 2);
    assert_eq!(leaf[Intent::Air], 13);
    assert_eq!(leaf[Intent::Growth], 7);
    assert_eq!(stem.get(Intent::Air), None);
    assert_eq!(stem.get(Intent::Growth), None);
    assert_eq!(stem[Intent::AbsorbAir], 0);
    assert_eq!(stem[Intent::Plant], 9931);
    assert_eq!(stem[Intent::Leaf], 49);
    assert_eq!(air.mass, 99998);
    assert_eq!(air[Intent::Air], 99948);
    assert_eq!(stem.mass + air.mass + leaf.mass, 10000 + 100000);
}

#[test]
fn fragment_pure_agrees_with_fragment() {
    let s = Substance::new(50)
        .with(Intent::Air, 77)
        .with(Intent::Plant, 2)
        .with(Intent::AbsorbAir, -9);
    let (rest, piece) = alchemy::alchemy::fragment_pure(&s, 20);
    let mut t = Substance::new(50)
        .with(Intent::Air, 77)
        .with(Intent::Plant, 2)
        .with(Intent::AbsorbAir, -9);
    let piece2 = fragment(&mut t, 20);
    assert_eq!(s.mass, 50);
    assert_eq!(rest.mass, t.mass);
    assert_eq!(piece.mass, piece2.mass);
    for i in [Intent::Air, Intent::Plant, Intent::Leaf, Intent::Growth, Intent::AbsorbAir] {
        assert_eq!(rest.get(i), t.get(i));
        assert_eq!(piece.get(i), piece2.get(i));
    }
    assert_eq!(piece.get(Intent::Air), Some(30));
    assert_eq!(rest.get(Intent::Air), Some(47));
}

#[test]
fn splitting_an_addition_never_gains() {
    let first = soft_add_value(0, 2, 1).unwrap();
    assert_eq!(first, 1);
    assert_eq!(soft_add_value(first, 1, 1), Some(1));
    assert_eq!(soft_add_value(0, 3, 1), Some(2));
    let mid = soft_add_value(0, 5, 10).unwrap();
    assert_eq!(soft_add_value(mid, 20, 10), Some(17));
    assert_eq!(soft_add_value(0, 25, 10), Some(17));
    let mut s = Substance::new(1);
    s.add(Intent::Leaf, 2);
    s.add(Intent::Leaf, 1);
    let mut t = Substance::new(1);
    t.add(Intent::Leaf, 3);
    assert!(s[Intent::Leaf] <= t[Intent::Leaf]);
}

#[test]
fn adding_more_never_reaches_less() {
    let mut last = 0;
    for amount in 0..200 {
        let r = soft_add_value(7, amount, 6).unwrap();
        assert!(last <= r);
        last = r;
    }
}

#[test]
fn stem_forgets_a_leaf_that_is_gone() {
    let mut stem = Substance::new(10000).with(Intent::Plant, 10000);
    let mut air = Substance::new(100000).with(Intent::Air, 100000);
    let action = stem_tick(&mut stem, None, true, &mut air).unwrap();
    assert!(matches!(action, StemAction::Unlinked));
    assert_eq!(stem[Intent::Plant], 9931);
    assert_eq!(air[Intent::Air], 100000);
}

#[test]
fn stem_without_leaf_sprouts_even_when_it_changed() {
    let mut stem = Substance::new(10000).with(Intent::Plant, 10000);
    let mut air = Substance::new(100000).with(Intent::Air, 100000);
    let action = stem_tick(&mut stem, None, false, &mut air).unwrap();
    let StemAction::Sprouted(leaf) = action else {
        panic!("expected a new leaf");
    };
    assert_eq!(leaf.mass, 2);
    assert_eq!(leaf[Intent::Air], 13);
    assert_eq!(leaf[Intent::Growth], 7);
    assert_eq!(stem.mass, 10000);
    assert_eq!(stem[Intent::Plant], 9931);
    assert_eq!(stem[Intent::Leaf], 49);
    assert_eq!(stem[Intent::AbsorbAir], 0);
    assert_eq!(stem.get(Intent::Growth), None);
    assert_eq!(air.mass, 99998);
    assert_eq!(air[Intent::Air], 99948);
}

#[test]
fn stem_that_gathers_nothing_rests() {
    let mut stem = Substance::new(10);
    let mut air = Substance::new(100000).with(Intent::Air, 100000);
    let action = stem_tick(&mut stem, None, false, &mut air).unwrap();
    assert!(matches!(action, StemAction::Rested));
    assert_eq!(stem.mass, 10);
    assert_eq!(air.mass, 100000);
    assert_eq!(air[Intent::Air], 100000);
}

#[test]
fn settled_stem_without_leaf_sprouts() {
    let mut stem = Substance::new(10000)
        .with(Intent::Plant, 100)
        .with(Intent::Leaf, 100)
        .with(Intent::Growth, 100)
        .with(Intent::AbsorbAir, 100);
    let mut air = Substance::new(100000).with(Intent::Air, 100000);
    let action = stem_tick(&mut stem, None, false, &mut air).unwrap();
    let StemAction::Sprouted(leaf) = action else {
        panic!("expected a new leaf");
    };
    assert_eq!(leaf.mass, 100);
    assert_eq!(leaf[Intent::Air], 149);
    assert_eq!(leaf[Intent::Growth], 100);
    assert_eq!(stem.mass, 10000);
    assert_eq!(stem.get(Intent::Air), None);
    assert_eq!(stem.get(Intent::Growth), None);
    assert_eq!(stem[Intent::AbsorbAir], 0);
    assert_eq!(stem[Intent::Plant], 100);
    assert_eq!(air.mass, 99900);
    assert_eq!(air[Intent::Air], 99701);
}

#[test]
fn stem_tends_its_present_leaf() {
    let mut stem = Substance::new(100);
    let mut leaf = Substance::new(10).with(Intent::Plant, 20).with(Intent::Leaf, 30);
    let mut air = Substance::new(1000).with(Intent::Air, 1000);
    let action = stem_tick(&mut stem, Some(&mut leaf), true, &mut air).unwrap();
    assert!(matches!(action, StemAction::Tended));
    assert_eq!(stem[Intent::Plant], 20);
    assert_eq!(stem[Intent::Leaf], 28);
    assert_eq!(leaf[Intent::Leaf], 1);
    assert_eq!(leaf[Intent::Air], 19);
    assert_eq!(air[Intent::Air], 970);
}

#[test]
fn refused_stem_tick_leaves_everything() {
    let mut stem = Substance::new(5).with(Intent::Plant, 0).with(Intent::Leaf, -1000);
    let mut air = Substance::new(1000).with(Intent::Air, 1000);
    assert!(matches!(stem_tick(&mut stem, None, false, &mut air), Err(Refused)));
    assert_eq!(stem[Intent::Leaf], -1000);
    assert_eq!(stem.get(Intent::Growth), None);
    assert_eq!(air[Intent::Air], 1000);
}
