use crdt::HybridLogicalClock;
use crdt::LWWMap;
use crdt::Max;
use crdt::Merge;
use crdt::Timestamp;

fn clock(secs: i64, counter: u16, node_id: u128) -> HybridLogicalClock {
    HybridLogicalClock::from_parts(Timestamp::new(secs, 0), counter, node_id)
}

struct Lcg(u64);

impl Lcg {
    fn below(&mut self, bound: u64) -> u64 {
        self.0 = self.0.wrapping_mul(6364136223846793005).wrapping_add(1442695040888963407);
        (self.0 >> 33) % bound
    }

    fn clock(&mut self) -> HybridLogicalClock {
        clock(self.below(3) as i64, self.below(3) as u16, self.below(3) as u128)
    }

    fn map(&mut self) -> LWWMap<bool, Max<bool>> {
        let mut map = LWWMap::default();
        for _ in 0..1 + self.below(3) {
            let key = self.below(2) == 1;
            let value = self.below(2) == 1;
            let added_at = self.clock();
            map.insert(key, Max::from(value), added_at);
            if self.below(2) == 1 {
                let removed_at = self.clock();
                map.remove(key, removed_at);
            }
        }
        map
    }
}

fn holds(map: &LWWMap<bool, Max<bool>>, key: bool) -> bool {
    map.iter().iter().any(|(stored, _)| **stored == key)
}

fn pruned(map: &LWWMap<bool, Max<bool>>) -> bool {
    map.iter().iter().all(|(stored, _)| map.contains(stored))
}

fn lossless(
    a: &LWWMap<bool, Max<bool>>,
    b: &LWWMap<bool, Max<bool>>,
    c: &LWWMap<bool, Max<bool>>,
) -> bool {
    let first_two = a.clone().merge(b.clone());
    let last_two = b.clone().merge(c.clone());
    let all = first_two.clone().merge(c.clone());
    for key in [false, true] {
        if all.contains(&key) {
            if (holds(a, key) || holds(b, key)) && !first_two.contains(&key) {
                return false;
            }
            if (holds(b, key) || holds(c, key)) && !last_two.contains(&key) {
                return false;
            }
        }
    }
    true
}

/// Merging a value into itself must give the value back.
fn test_idempotent<T>(v: T)
where
    T: Merge + Clone + PartialEq + std::fmt::Debug,
{
    assert_eq!(v.clone().merge(v.clone()), v);
}

/// Merging must give the same result in either direction.
fn test_commutative<T>(a: T, b: T)
where
    T: Merge + Clone + PartialEq + std::fmt::Debug,
{
    let ab = a.clone().merge(b.clone());
    let ba = b.merge(a);

    assert_eq!(ab, ba);
}

/// Merging must give the same result however three values are grouped.
fn test_associative<T>(a: T, b: T, c: T)
where
    T: Merge + Clone + PartialEq + std::fmt::Debug,
{
    let ab_c = a.clone().merge(b.clone()).merge(c.clone());
    let a_bc = a.merge(b.merge(c));

    assert_eq!(ab_c, a_bc);
}

#[test]
fn lwwmap_starts_empty() {
    let map: LWWMap<u8, Max<u8>> = LWWMap::default();
    assert!(map.iter().is_empty());
    assert!(!map.contains(&0));
}

#[test]
fn lwwmap_insert_adds_the_key_and_stores_the_value() {
    let mut map = LWWMap::default();
    map.insert("k", Max::from(4u8), clock(1, 0, 0));
    assert!(map.contains(&"k"));
    assert_eq!(map.iter(), vec![(&"k", &Max::from(4))]);
}

#[test]
fn lwwmap_insert_merges_into_the_stored_value() {
    let mut map = LWWMap::default();
    map.insert("k", Max::from(4u8), clock(1, 0, 0));
    map.insert("k", Max::from(2), clock(2, 0, 0));
    assert_eq!(map.iter(), vec![(&"k", &Max::from(4))]);
    map.insert("k", Max::from(6), clock(0, 0, 0));
    assert_eq!(map.iter(), vec![(&"k", &Max::from(6))]);
    assert!(map.contains(&"k"));
}

#[test]
fn removing_removes_value() {
    let mut rng = Lcg(31);
    for _ in 0..200 {
        let mut base = rng.map();
        let k = rng.below(2) == 1;
        let v = rng.below(2) == 1;
        let mut at = HybridLogicalClock::new(0);
        base.insert(k, Max::from(v), at);
        at.tick();
        base.remove(k, at);
        assert!(!base.contains(&k));
        assert!(!holds(&base, k));
    }
}

#[test]
fn lwwmap_remove_drops_the_value_even_at_an_earlier_clock() {
    let mut map = LWWMap::default();
    map.insert("k", Max::from(4u8), clock(5, 0, 0));
    map.remove("k", clock(1, 0, 0));
    assert!(map.contains(&"k"));
    assert!(map.iter().is_empty());
}

#[test]
fn lwwmap_insert_behind_a_remove_stores_without_membership() {
    let mut map = LWWMap::default();
    map.insert("k", Max::from(1u8), clock(5, 0, 0));
    map.remove("k", clock(10, 0, 0));
    map.insert("k", Max::from(2), clock(7, 0, 0));
    assert!(!map.contains(&"k"));
    assert_eq!(map.iter(), vec![(&"k", &Max::from(2))]);
    let merged = map.clone().merge(map.clone());
    assert!(merged.iter().is_empty());
    assert_ne!(merged, map);
}

#[test]
fn lwwmap_merge_prunes_values_of_removed_keys() {
    let mut ours = LWWMap::default();
    ours.insert("gone", Max::from(1u8), clock(1, 0, 0));
    ours.insert("kept", Max::from(1), clock(1, 0, 0));
    let mut theirs = LWWMap::default();
    theirs.remove("gone", clock(2, 0, 0));
    theirs.insert("kept", Max::from(3), clock(1, 0, 1));
    theirs.insert("new", Max::from(5), clock(1, 0, 1));
    ours.merge_mut(theirs);
    assert_eq!(ours.iter(), vec![(&"kept", &Max::from(3)), (&"new", &Max::from(5))]);
    assert!(!ours.contains(&"gone"));
}

#[test]
fn lwwmap_merge_does_not_resurrect_a_removed_value() {
    let mut stale = LWWMap::default();
    stale.insert("k", Max::from(9u8), clock(1, 0, 1));
    let mut current = stale.clone();
    current.remove("k", clock(2, 0, 2));
    let merged = current.merge(stale);
    assert!(!merged.contains(&"k"));
    assert!(merged.iter().is_empty());
}

#[test]
fn lwwmap_merge_leaves_values_for_members_only() {
    let mut rng = Lcg(32);
    for _ in 0..300 {
        let a = rng.map();
        let b = rng.map();
        assert!(pruned(&a.merge(b)));
    }
}

#[test]
fn lwwmap_merge_idempotent() {
    let mut rng = Lcg(33);
    let mut checked = 0;
    for _ in 0..500 {
        let v = rng.map();
        if pruned(&v) {
            test_idempotent(v.clone());
            checked += 1;
        } else {
            assert_ne!(v.clone().merge(v.clone()), v);
        }
    }
    assert!(checked > 100);
}

#[test]
fn lwwmap_merge_commutative() {
    let mut rng = Lcg(34);
    for _ in 0..500 {
        let a = rng.map();
        let b = rng.map();
        test_commutative(a, b);
    }
}

#[test]
fn lwwmap_merge_associative_where_nothing_is_dropped_on_the_way() {
    let mut rng = Lcg(35);
    let mut checked = 0;
    for _ in 0..1000 {
        let a = rng.map();
        let b = rng.map();
        let c = rng.map();
        if lossless(&a, &b, &c) {
            test_associative(a, b, c);
            checked += 1;
        }
    }
    assert!(checked > 200);
}

#[test]
fn lwwmap_grouping_matters_where_a_value_is_dropped_on_the_way() {
    let mut a = LWWMap::default();
    a.insert("k", Max::from(true), clock(1, 0, 0));
    let mut b = LWWMap::default();
    b.remove("k", clock(2, 0, 0));
    let mut c = LWWMap::default();
    c.insert("k", Max::from(false), clock(3, 0, 0));
    let ab_c = a.clone().merge(b.clone()).merge(c.clone());
    let a_bc = a.merge(b.merge(c));
    assert_eq!(ab_c.iter(), vec![(&"k", &Max::from(false))]);
    assert_eq!(a_bc.iter(), vec![(&"k", &Max::from(true))]);
}

#[test]
fn lwwmap_takes_keys_that_are_not_copied_bit_by_bit() {
    let mut map = LWWMap::default();
    map.insert("first".to_string(), Max::from(1u8), clock(1, 0, 0));
    map.insert("second".to_string(), Max::from(2), clock(1, 0, 0));
    map.remove("first".to_string(), clock(2, 0, 0));
    assert!(!map.contains(&"first".to_string()));
    assert!(map.contains(&"second".to_string()));
    assert_eq!(map.iter(), vec![(&"second".to_string(), &Max::from(2))]);
}

#[test]
fn lwwmap_exposes_the_clocks_of_its_keys() {
    let mut map = LWWMap::default();
    map.insert("k", Max::from(1u8), clock(1, 0, 0));
    map.remove("k", clock(2, 0, 0));
    map.insert("j", Max::from(1u8), clock(3, 0, 0));
    assert_eq!(map.keys().adds(), vec![(&"j", &clock(3, 0, 0)), (&"k", &clock(1, 0, 0))]);
    assert_eq!(map.keys().removes(), vec![(&"k", &clock(2, 0, 0))]);
    assert_eq!(map.keys().iter(), vec![&"j"]);
}

#[test]
fn lwwmap_can_be_rebuilt_from_its_keys_and_values() {
    let mut rng = Lcg(36);
    for _ in 0..200 {
        let map = rng.map();
        let mut rebuilt = LWWMap::from_keys(map.keys().clone());
        assert!(rebuilt.iter().is_empty());
        for (key, value) in map.iter() {
            rebuilt.insert_value(*key, value.clone());
        }
        assert_eq!(rebuilt, map);
    }
}

#[test]
fn lwwmap_insert_value_leaves_the_clocks_alone() {
    let mut map = LWWMap::default();
    map.insert_value("k", Max::from(3u8));
    assert!(!map.contains(&"k"));
    assert_eq!(map.iter(), vec![(&"k", &Max::from(3))]);
    map.insert_value("k", Max::from(5));
    map.insert_value("k", Max::from(4));
    assert_eq!(map.iter(), vec![(&"k", &Max::from(5))]);
    assert!(map.keys().adds().is_empty());
}
