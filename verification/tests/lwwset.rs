use crdt::HybridLogicalClock;
use crdt::LWWSet;
use crdt::Merge;
use crdt::Timestamp;

fn clock(secs: i64, counter: u16, node_id: u128) -> HybridLogicalClock {
    HybridLogicalClock::from_parts(Timestamp::new(secs, 0), counter, node_id)
}

struct Lcg(u64);

impl Lcg {
    fn below(&mut self, bound: u64) -> u64 {
        self.0 = self.0.wrapping_mul(6364136223846793005).wrapping_add(1442695040888963407);
        (self.0 >> 33) % bound
    }

    fn clock(&mut self) -> HybridLogicalClock {
        clock(self.below(3) as i64, self.below(3) as u16, self.below(3) as u128)
    }

    fn set(&mut self) -> LWWSet<bool> {
        let mut set = LWWSet::default();
        for _ in 0..self.below(5) {
            let item = self.below(2) == 1;
            let at = self.clock();
            if self.below(2) == 1 {
                set.insert(item, at);
            } else {
                set.remove(item, at);
            }
        }
        set
    }
}

/// Merging a value into itself must give the value back.
fn test_idempotent<T>(v: T)
where
    T: Merge + Clone + PartialEq + std::fmt::Debug,
{
    assert_eq!(v.clone().merge(v.clone()), v);
}

/// Merging must give the same result in either direction.
fn test_commutative<T>(a: T, b: T)
where
    T: Merge + Clone + PartialEq + std::fmt::Debug,
{
    let ab = a.clone().merge(b.clone());
    let ba = b.merge(a);

    assert_eq!(ab, ba);
}

/// Merging must give the same result however three values are grouped.
fn test_associative<T>(a: T, b: T, c: T)
where
    T: Merge + Clone + PartialEq + std::fmt::Debug,
{
    let ab_c = a.clone().merge(b.clone()).merge(c.clone());
    let a_bc = a.merge(b.merge(c));

    assert_eq!(ab_c, a_bc);
}

#[test]
fn lwwset_starts_empty() {
    let set: LWWSet<u8> = LWWSet::default();
    assert!(!set.contains(&1));
    assert!(set.iter().is_empty());
}

#[test]
fn lwwset_later_remove_hides_and_later_add_restores() {
    let mut set = LWWSet::default();
    set.insert("x", clock(1, 0, 0));
    assert!(set.contains(&"x"));
    set.remove("x", clock(2, 0, 0));
    assert!(!set.contains(&"x"));
    assert!(set.iter().is_empty());
    set.insert("x", clock(3, 0, 0));
    assert!(set.contains(&"x"));
    assert_eq!(set.iter(), vec![&"x"]);
}

#[test]
fn lwwset_earlier_remove_does_not_hide() {
    let mut set = LWWSet::default();
    set.insert("x", clock(5, 0, 0));
    set.remove("x", clock(4, 9, 9));
    assert!(set.contains(&"x"));
}

#[test]
fn lwwset_remove_at_the_clock_of_the_add_hides() {
    let mut set = LWWSet::default();
    set.insert("x", clock(5, 0, 0));
    set.remove("x", clock(5, 0, 0));
    assert!(!set.contains(&"x"));
}

#[test]
fn lwwset_remove_before_any_add_is_a_tombstone() {
    let mut set = LWWSet::default();
    set.remove("x", clock(5, 0, 0));
    assert!(!set.contains(&"x"));
    set.insert("x", clock(4, 0, 0));
    assert!(!set.contains(&"x"));
    set.insert("x", clock(5, 0, 1));
    assert!(set.contains(&"x"));
}

#[test]
fn lwwset_keeps_the_latest_clock_of_each_kind() {
    let mut set = LWWSet::default();
    set.insert("x", clock(9, 0, 0));
    set.insert("x", clock(1, 0, 0));
    set.remove("x", clock(5, 0, 0));
    assert!(set.contains(&"x"));
    set.remove("x", clock(9, 0, 1));
    set.remove("x", clock(2, 0, 0));
    assert!(!set.contains(&"x"));
    set.insert("x", clock(9, 0, 1));
    assert!(!set.contains(&"x"));
    set.insert("x", clock(9, 0, 2));
    assert!(set.contains(&"x"));
}

#[test]
fn lwwset_iter_lists_members_in_ascending_order() {
    let mut set = LWWSet::default();
    set.insert(7u8, clock(1, 0, 0));
    set.insert(3, clock(1, 0, 0));
    set.insert(5, clock(1, 0, 0));
    set.insert(1, clock(1, 0, 0));
    set.remove(5, clock(2, 0, 0));
    set.remove(9, clock(2, 0, 0));
    assert_eq!(set.iter(), vec![&1, &3, &7]);
}

#[test]
fn lwwset_merge_takes_the_later_clock_of_each_item() {
    let mut ours = LWWSet::default();
    ours.insert("kept", clock(1, 0, 0));
    ours.insert("removed there", clock(1, 0, 0));
    ours.remove("added there", clock(1, 0, 0));
    let mut theirs = LWWSet::default();
    theirs.remove("removed there", clock(2, 0, 0));
    theirs.insert("added there", clock(2, 0, 0));
    theirs.insert("new", clock(1, 0, 1));
    ours.merge_mut(theirs);
    assert_eq!(ours.iter(), vec![&"added there", &"kept", &"new"]);
    assert!(!ours.contains(&"removed there"));
}

#[test]
fn lwwset_replicas_converge_on_a_concurrent_add_and_remove() {
    let mut replica_a = LWWSet::default();
    replica_a.insert("item", clock(1, 0, 1));
    let mut replica_b = LWWSet::default();
    replica_b.remove("item", clock(2, 0, 2));
    let a_into_b = replica_b.clone().merge(replica_a.clone());
    let b_into_a = replica_a.clone().merge(replica_b.clone());
    assert!(!a_into_b.contains(&"item"));
    assert!(!b_into_a.contains(&"item"));
    assert_eq!(a_into_b, b_into_a);
    let mut expected = LWWSet::default();
    expected.insert("item", clock(1, 0, 1));
    expected.remove("item", clock(2, 0, 2));
    assert_eq!(a_into_b, expected);
}

#[test]
fn lwwset_stale_add_does_not_resurrect_after_merge() {
    let mut stale = LWWSet::default();
    stale.insert("item", clock(1, 0, 1));
    let mut current = stale.clone();
    current.remove("item", clock(2, 0, 2));
    let merged = current.merge(stale);
    assert!(!merged.contains(&"item"));
}

#[test]
fn lwwset_merge_idempotent() {
    let mut rng = Lcg(21);
    for _ in 0..500 {
        let v = rng.set();
        test_idempotent(v.clone());
    }
}

#[test]
fn lwwset_merge_commutative() {
    let mut rng = Lcg(22);
    for _ in 0..500 {
        let a = rng.set();
        let b = rng.set();
        test_commutative(a, b);
    }
}

#[test]
fn lwwset_merge_associative() {
    let mut rng = Lcg(23);
    for _ in 0..500 {
        let a = rng.set();
        let b = rng.set();
        let c = rng.set();
        test_associative(a, b, c);
    }
}

#[test]
fn lwwset_lists_the_latest_clock_of_every_add_and_remove() {
    let mut set = LWWSet::default();
    set.insert(2u8, clock(1, 0, 0));
    set.insert(1, clock(4, 0, 0));
    set.insert(2, clock(3, 0, 0));
    set.insert(2, clock(2, 0, 0));
    set.remove(3, clock(5, 0, 0));
    set.remove(1, clock(1, 0, 0));
    assert_eq!(set.adds(), vec![(&1, &clock(4, 0, 0)), (&2, &clock(3, 0, 0))]);
    assert_eq!(set.removes(), vec![(&1, &clock(1, 0, 0)), (&3, &clock(5, 0, 0))]);
}

#[test]
fn lwwset_can_be_rebuilt_from_its_clocks() {
    let mut rng = Lcg(24);
    for _ in 0..200 {
        let set = rng.set();
        let mut rebuilt = LWWSet::default();
        for (item, at) in set.removes() {
            rebuilt.remove(*item, *at);
        }
        for (item, at) in set.adds() {
            rebuilt.insert(*item, *at);
        }
        assert_eq!(rebuilt, set);
    }
}
