use factory_sim::player::{Resources, KIND_COUNT, R};

fn ledger(entries: &[(R, u64)]) -> Resources {
    let mut r = Resources::zero();
    for (k, v) in entries {
        r.insert(*k, *v);
    }
    r
}

fn entries(r: &Resources) -> Vec<Option<u64>> {
    (0..KIND_COUNT).map(|i| r.get(R::from_index(i))).collect()
}

#[test]
fn zero_has_no_entries() {
    let r = Resources::zero();
    assert!(entries(&r).iter().all(|e| e.is_none()));
}

#[test]
fn insert_then_get_returns_the_value() {
    let mut r = Resources::zero();
    r.insert(R::Copper, 7);
    assert_eq!(r.get(R::Copper), Some(7));
    assert_eq!(r.get(R::Sand), None);
    r.insert(R::Copper, 9);
    assert_eq!(r.get(R::Copper), Some(9));
    assert_eq!(r.amount(R::Copper), 9);
    assert_eq!(r.amount(R::Glass), 0);
}

#[test]
fn clone_keeps_entries_and_is_independent() {
    let mut a = ledger(&[(R::Plastic, 4), (R::Sand, 0)]);
    let b = a.clone();
    a.insert(R::Plastic, 5);
    assert_eq!(b.get(R::Plastic), Some(4));
    assert_eq!(b.get(R::Sand), Some(0));
    assert_eq!(b.get(R::Glass), None);
}

#[test]
fn constant_ledgers() {
    assert!(entries(&Resources::zero_all_keys()).iter().all(|e| *e == Some(0)));
    assert!(entries(&Resources::one()).iter().all(|e| *e == Some(1)));
    let p = Resources::player_default();
    for i in 0..KIND_COUNT {
        let k = R::from_index(i);
        let want = if k == R::LittleHats { 3 } else { 0 };
        assert_eq!(p.get(k), Some(want));
    }
}

#[test]
fn take_all_moves_exactly_what_is_asked() {
    let mut a = ledger(&[(R::Plastic, 30), (R::Copper, 8)]);
    let mut b = ledger(&[(R::Copper, 1)]);
    let q = ledger(&[(R::Plastic, 10), (R::Copper, 5)]);
    assert!(a.take(&q, &mut b, true));
    assert_eq!(a.get(R::Plastic), Some(20));
    assert_eq!(a.get(R::Copper), Some(3));
    assert_eq!(b.get(R::Plastic), Some(10));
    assert_eq!(b.get(R::Copper), Some(6));
}

#[test]
fn take_conserves_the_sum_of_both_ledgers() {
    let mut a = ledger(&[(R::Plastic, 30), (R::Copper, 8), (R::Sand, 2)]);
    let mut b = ledger(&[(R::Copper, 1), (R::Glass, 4)]);
    let q = ledger(&[(R::Plastic, 10), (R::Copper, 5)]);
    let before = entries(&a.sum(&b));
    assert!(a.take(&q, &mut b, true));
    assert_eq!(entries(&a.sum(&b)), before);
}

#[test]
fn take_conserves_when_the_receiver_is_full() {
    let mut a = ledger(&[(R::Plastic, 5)]);
    let mut b = ledger(&[(R::Plastic, u64::MAX - 2)]);
    let q = ledger(&[(R::Plastic, 5)]);
    let before = entries(&a.sum(&b));
    assert!(a.take(&q, &mut b, true));
    assert_eq!(a.get(R::Plastic), Some(0));
    assert_eq!(b.get(R::Plastic), Some(u64::MAX));
    assert_eq!(entries(&a.sum(&b)), before);
}

#[test]
fn take_require_all_is_atomic() {
    let mut a = ledger(&[(R::Plastic, 30), (R::Copper, 4)]);
    let mut b = ledger(&[(R::Copper, 1)]);
    let q = ledger(&[(R::Plastic, 10), (R::Copper, 5)]);
    let (a0, b0) = (entries(&a), entries(&b));
    assert!(!a.take(&q, &mut b, true));
    assert_eq!(entries(&a), a0);
    assert_eq!(entries(&b), b0);
}

#[test]
fn take_without_require_all_moves_what_is_there() {
    let mut a = ledger(&[(R::Plastic, 30), (R::Copper, 4)]);
    let mut b = Resources::zero();
    let q = ledger(&[(R::Plastic, 10), (R::Copper, 5), (R::Sand, 1)]);
    assert!(!a.take(&q, &mut b, false));
    assert_eq!(a.get(R::Plastic), Some(20));
    assert_eq!(a.get(R::Copper), Some(0));
    assert_eq!(a.get(R::Sand), None);
    assert_eq!(b.get(R::Plastic), Some(10));
    assert_eq!(b.get(R::Copper), Some(4));
    assert_eq!(b.get(R::Sand), None);
}

#[test]
fn take_of_nothing_succeeds_on_any_ledger() {
    let mut a = Resources::zero();
    let mut b = Resources::zero();
    assert!(a.take(&Resources::zero(), &mut b, true));
    let q = ledger(&[(R::Sand, 0)]);
    assert!(a.take(&q, &mut b, true));
    assert!(entries(&a).iter().all(|e| e.is_none()));
    assert!(entries(&b).iter().all(|e| e.is_none()));
}

#[test]
fn covers_compares_kind_by_kind() {
    let a = ledger(&[(R::Plastic, 30)]);
    assert!(a.covers(&ledger(&[(R::Plastic, 30)])));
    assert!(!a.covers(&ledger(&[(R::Plastic, 31)])));
    assert!(!a.covers(&ledger(&[(R::Plastic, 1), (R::Sand, 1)])));
}

#[test]
fn needs_wants_what_is_short_and_on_offer() {
    let have = ledger(&[(R::CopperOre, 1)]);
    let want = ledger(&[(R::CopperOre, 2)]);
    assert!(have.needs(&want, &ledger(&[(R::CopperOre, 1)])));
    assert!(!have.needs(&want, &ledger(&[(R::CopperOre, 0)])));
    assert!(!have.needs(&want, &ledger(&[(R::Sand, 5)])));
    let full = ledger(&[(R::CopperOre, 2)]);
    assert!(!full.needs(&want, &ledger(&[(R::CopperOre, 9)])));
}

#[test]
fn sum_and_max_fill_every_kind() {
    let a = ledger(&[(R::Plastic, 3), (R::Sand, 9)]);
    let b = ledger(&[(R::Plastic, 4), (R::Glass, 1)]);
    let s = a.sum(&b);
    let m = a.max(&b);
    assert_eq!(s.get(R::Plastic), Some(7));
    assert_eq!(s.get(R::Sand), Some(9));
    assert_eq!(s.get(R::Glass), Some(1));
    assert_eq!(s.get(R::Copper), Some(0));
    assert_eq!(m.get(R::Plastic), Some(4));
    assert_eq!(m.get(R::Sand), Some(9));
    assert_eq!(m.get(R::Glass), Some(1));
    assert_eq!(m.get(R::Copper), Some(0));
}

#[test]
fn sum_saturates() {
    let a = ledger(&[(R::Plastic, u64::MAX)]);
    let b = ledger(&[(R::Plastic, 1)]);
    assert_eq!(a.sum(&b).get(R::Plastic), Some(u64::MAX));
}

#[test]
fn mult_scales_entries_and_saturates() {
    let a = ledger(&[(R::Plastic, 3), (R::Sand, u64::MAX / 2 + 1)]);
    let m = a.mult(2);
    assert_eq!(m.get(R::Plastic), Some(6));
    assert_eq!(m.get(R::Sand), Some(u64::MAX));
    assert_eq!(m.get(R::Glass), None);
}

#[test]
fn as_zero_keeps_the_keys() {
    let a = ledger(&[(R::Plastic, 3), (R::Sand, 9)]);
    let z = a.as_zero();
    assert_eq!(z.get(R::Plastic), Some(0));
    assert_eq!(z.get(R::Sand), Some(0));
    assert_eq!(z.get(R::Glass), None);
}

#[test]
fn kind_names_recipes_and_times() {
    assert_eq!(R::CopperOre.name(), "COPPER ORE");
    assert_eq!(R::Lightbulbs.name(), "LIGHT BULBS");
    let big = R::BigHats.recipe();
    assert_eq!(big.get(R::Plastic), Some(10));
    assert_eq!(big.get(R::Batteries), Some(1));
    assert_eq!(big.get(R::Lightbulbs), Some(1));
    assert_eq!(big.get(R::Copper), None);
    assert_eq!(R::Copper.recipe().get(R::CopperOre), Some(2));
    assert_eq!(R::Glass.recipe().get(R::Sand), Some(3));
    assert_eq!(R::LittleHats.time(), 300);
    assert_eq!(R::BigHats.time(), 200);
    assert_eq!(R::Batteries.time(), 150);
    assert_eq!(R::Copper.time(), 100);
}

#[test]
fn kind_index_round_trip() {
    for i in 0..KIND_COUNT {
        assert_eq!(R::from_index(i).index(), i);
    }
}
