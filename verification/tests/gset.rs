use crdt::GSet;
use crdt::Merge;

fn set_of<T: Ord + Copy>(items: &[T]) -> GSet<T> {
    let mut set = GSet::new();
    for item in items {
        set.insert(*item);
    }
    set
}

fn bool_sets() -> Vec<GSet<bool>> {
    vec![set_of(&[]), set_of(&[false]), set_of(&[true]), set_of(&[false, true])]
}

struct Lcg(u64);

impl Lcg {
    fn below(&mut self, bound: u64) -> u64 {
        self.0 = self.0.wrapping_mul(6364136223846793005).wrapping_add(1442695040888963407);
        (self.0 >> 33) % bound
    }

    fn set(&mut self) -> GSet<u8> {
        let mut set = GSet::new();
        for _ in 0..self.below(6) {
            set.insert(self.below(8) as u8);
        }
        set
    }
}

/// Merging a value into itself must give the value back.
fn test_idempotent<T>(v: T)
where
    T: Merge + Clone + PartialEq + std::fmt::Debug,
{
    assert_eq!(v.clone().merge(v.clone()), v);
}

/// Merging must give the same result in either direction.
fn test_commutative<T>(a: T, b: T)
where
    T: Merge + Clone + PartialEq + std::fmt::Debug,
{
    let ab = a.clone().merge(b.clone());
    let ba = b.merge(a);

    assert_eq!(ab, ba);
}

/// Merging must give the same result however three values are grouped.
fn test_associative<T>(a: T, b: T, c: T)
where
    T: Merge + Clone + PartialEq + std::fmt::Debug,
{
    let ab_c = a.clone().merge(b.clone()).merge(c.clone());
    let a_bc = a.merge(b.merge(c));

    assert_eq!(ab_c, a_bc);
}

#[test]
fn gset_starts_empty() {
    let set: GSet<u8> = GSet::new();
    assert!(set.iter().is_empty());
    assert!(!set.contains(&0));
    assert_eq!(set, GSet::default());
}

#[test]
fn gset_insert_adds_and_keeps() {
    let mut set = GSet::new();
    set.insert(3u8);
    set.insert(1);
    set.insert(3);
    assert!(set.contains(&1));
    assert!(set.contains(&3));
    assert!(!set.contains(&2));
    assert_eq!(set.iter(), vec![&1, &3]);
}

#[test]
fn gset_iter_lists_in_ascending_order() {
    let set = set_of(&[9u8, 2, 7, 2, 0]);
    assert_eq!(set.iter(), vec![&0, &2, &7, &9]);
}

#[test]
fn gset_merge_is_the_union() {
    let mut left = set_of(&[1u8, 2]);
    let right = set_of(&[2u8, 5]);
    left.merge_mut(right);
    assert_eq!(left, set_of(&[1, 2, 5]));
    assert_eq!(left.iter(), vec![&1, &2, &5]);
}

#[test]
fn gset_merge_never_evicts() {
    let mut rng = Lcg(11);
    for _ in 0..200 {
        let a = rng.set();
        let b = rng.set();
        let merged = a.clone().merge(b.clone());
        for item in a.iter() {
            assert!(merged.contains(item));
        }
        for item in b.iter() {
            assert!(merged.contains(item));
        }
        for item in merged.iter() {
            assert!(a.contains(item) || b.contains(item));
        }
    }
}

#[test]
fn gset_merge_idempotent() {
    for v in bool_sets() {
        test_idempotent(v.clone());
    }
    let mut rng = Lcg(1);
    for _ in 0..200 {
        let v = rng.set();
        test_idempotent(v.clone());
    }
}

#[test]
fn gset_merge_commutative() {
    for a in bool_sets() {
        for b in bool_sets() {
            test_commutative(a.clone(), b.clone());
        }
    }
    let mut rng = Lcg(2);
    for _ in 0..200 {
        let a = rng.set();
        let b = rng.set();
        test_commutative(a, b);
    }
}

#[test]
fn gset_merge_associative() {
    for a in bool_sets() {
        for b in bool_sets() {
            for c in bool_sets() {
                test_associative(a.clone(), b.clone(), c.clone());
            }
        }
    }
    let mut rng = Lcg(3);
    for _ in 0..200 {
        let a = rng.set();
        let b = rng.set();
        let c = rng.set();
        test_associative(a, b, c);
    }
}
