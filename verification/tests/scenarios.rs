use alchemy::alchemy::{check_intent, internal_interaction, interaction, Substance};
use alchemy::intent::{Intent, InteractionType};

#[test]
fn internal_interaction_test() {
    // Does nothing when empty
    let mut s = Substance::default();
    internal_interaction(&mut s);
    assert_eq!(s.values.get(&Intent::Leaf), None);
    assert_eq!(s.values.get(&Intent::Growth), None);

    // Check generators
    s.values.insert(Intent::Plant, 10000);
    internal_interaction(&mut s);
    assert_eq!(*s.values.get(&Intent::Plant).unwrap(), 9931);
    assert_eq!(*s.values.get(&Intent::Leaf).unwrap(), 49);
    assert_eq!(*s.values.get(&Intent::Growth).unwrap(), 18);
    assert_eq!(*s.values.get(&Intent::AbsorbAir).unwrap(), 1);

    // Do nothing over limit
    let mut s = Substance::default();
    s.values.insert(Intent::Plant, 100);
    s.values.insert(Intent::Leaf, 100);
    s.values.insert(Intent::Growth, 100);
    s.values.insert(Intent::AbsorbAir, 100);
    internal_interaction(&mut s);
    assert_eq!(*s.values.get(&Intent::Plant).unwrap(), 100);
    assert_eq!(*s.values.get(&Intent::Leaf).unwrap(), 100);
    assert_eq!(*s.values.get(&Intent::Growth).unwrap(), 100);
    assert_eq!(*s.values.get(&Intent::AbsorbAir).unwrap(), 100);
}

#[test]
fn interaction_test() {
    let mut a = Substance::default();
    a.values.insert(Intent::AbsorbAir, 10);
    a.mass = 10;
    let mut b = Substance::default();
    b.values.insert(Intent::Air, 10);
    b.mass = 10;
    let mut out = Substance::default();

    interaction(InteractionType::Contact, &mut a, &mut b, Some(&mut out));
    assert_eq!(out.mass, 9);
    assert_eq!(check_intent(&a, Intent::AbsorbAir), 1);
    assert_eq!(check_intent(&b, Intent::Air), 1);

    // No out -> no effect
    let mut a = Substance::default();
    a.values.insert(Intent::AbsorbAir, 10);
    a.mass = 10;
    let mut c = Substance::default();
    c.values.insert(Intent::Air, 10);
    c.mass = 10;
    interaction(InteractionType::Contact, &mut a, &mut c, None);
    assert_eq!(c.mass, 10);

    // Wrong type -> no effect
    let mut d = Substance::default();
    d.values.insert(Intent::AbsorbAir, 10);
    d.mass = 10;
    let mut e = Substance::default();
    e.values.insert(Intent::Air, 10);
    e.mass = 10;
    interaction(
        InteractionType::Internal,
        &mut d,
        &mut e,
        Some(&mut Substance::default()),
    );
    assert_eq!(d.mass, 10);
    assert_eq!(e.mass, 10);
}

#[test]
fn substance_test() {
    let mut a = Substance::new(10)
        .with(Intent::Leaf, 5)
        .with(Intent::Air, 25);
    a.add(Intent::Leaf, 5);
    assert_eq!(a[Intent::Leaf], 10);
    a.add(Intent::Air, 15);
    assert_eq!(a[Intent::Air], 30);
    a.add(Intent::Air, 5);
    assert_eq!(a[Intent::Air], 31);
    a.add(Intent::Air, (4 * 9) + (5 * 5) + 3);
    assert_eq!(a[Intent::Air], 45);
}
