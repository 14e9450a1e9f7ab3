use crdt::HybridLogicalClock;
use crdt::LWWRegister;
use crdt::Merge;
use crdt::Timestamp;

fn clock(secs: i64, counter: u16, node_id: u128) -> HybridLogicalClock {
    HybridLogicalClock::from_parts(Timestamp::new(secs, 0), counter, node_id)
}

fn small_registers() -> Vec<LWWRegister<bool>> {
    let mut all = Vec::new();
    for value in [false, true] {
        for secs in 0..=2i64 {
            for counter in 0..=1u16 {
                for node_id in 0..=1u128 {
                    all.push(LWWRegister::new(value, clock(secs, counter, node_id)));
                }
            }
        }
    }
    all
}

/// Merging a value into itself must give the value back.
fn test_idempotent<T>(v: T)
where
    T: Merge + Clone + PartialEq + std::fmt::Debug,
{
    assert_eq!(v.clone().merge(v.clone()), v);
}

/// Merging must give the same result in either direction.
fn test_commutative<T>(a: T, b: T)
where
    T: Merge + Clone + PartialEq + std::fmt::Debug,
{
    let ab = a.clone().merge(b.clone());
    let ba = b.merge(a);

    assert_eq!(ab, ba);
}

/// Merging must give the same result however three values are grouped.
fn test_associative<T>(a: T, b: T, c: T)
where
    T: Merge + Clone + PartialEq + std::fmt::Debug,
{
    let ab_c = a.clone().merge(b.clone()).merge(c.clone());
    let a_bc = a.merge(b.merge(c));

    assert_eq!(ab_c, a_bc);
}

#[test]
fn register_holds_what_it_was_made_with() {
    let register = LWWRegister::new("draft", clock(1, 0, 0));
    assert_eq!(*register.value(), "draft");
    assert_eq!(*register.clock(), clock(1, 0, 0));
}

#[test]
fn register_set_overwrites_without_comparing_clocks() {
    let mut register = LWWRegister::new(1u8, clock(5, 0, 0));
    register.set(2, clock(3, 0, 0));
    assert_eq!(*register.value(), 2);
    assert_eq!(*register.clock(), clock(3, 0, 0));
}

#[test]
fn register_merge_takes_the_later_write() {
    let mut register = LWWRegister::new(5u8, clock(1, 0, 0));
    register.merge_mut(LWWRegister::new(6, clock(1, 1, 0)));
    assert_eq!(*register.value(), 6);
    assert_eq!(*register.clock(), clock(1, 1, 0));
}

#[test]
fn register_merge_ignores_the_earlier_write() {
    let mut register = LWWRegister::new(5u8, clock(2, 0, 0));
    register.merge_mut(LWWRegister::new(6, clock(1, 9, 9)));
    assert_eq!(*register.value(), 5);
    assert_eq!(*register.clock(), clock(2, 0, 0));
}

#[test]
fn register_merge_keeps_its_own_value_on_a_tie() {
    let mut register = LWWRegister::new(5u8, clock(2, 0, 0));
    register.merge_mut(LWWRegister::new(6, clock(2, 0, 0)));
    assert_eq!(*register.value(), 5);
    let mut other = LWWRegister::new(6u8, clock(2, 0, 0));
    other.merge_mut(LWWRegister::new(5, clock(2, 0, 0)));
    assert_eq!(*other.value(), 6);
}

#[test]
fn register_merge_idempotent() {
    for v in small_registers() {
        test_idempotent(v.clone());
    }
}

#[test]
fn register_merge_commutative_on_distinct_clocks() {
    let all = small_registers();
    for a in all.iter() {
        for b in all.iter() {
            if a.clock() != b.clock() || a.value() == b.value() {
                test_commutative(a.clone(), b.clone());
            } else {
                assert_ne!(a.clone().merge(b.clone()), b.clone().merge(a.clone()));
            }
        }
    }
}

#[test]
fn register_merge_associative() {
    let all = small_registers();
    for a in all.iter() {
        for b in all.iter() {
            for c in all.iter() {
                test_associative(a.clone(), b.clone(), c.clone());
            }
        }
    }
}
