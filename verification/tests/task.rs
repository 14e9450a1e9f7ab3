use crdt::HybridLogicalClock;
use crdt::Merge;
use crdt::Task;
use crdt::Timestamp;

fn clock(secs: i64, counter: u16, node_id: u128) -> HybridLogicalClock {
    HybridLogicalClock::from_parts(Timestamp::new(secs, 0), counter, node_id)
}

#[test]
fn task_new_at_writes_every_register_at_the_given_clock() {
    let task = Task::new_at("water the plants".to_string(), clock(3, 1, 4), Timestamp::new(100, 5));
    assert_eq!(*task.added.value(), Timestamp::new(100, 5));
    assert_eq!(*task.complete.value(), false);
    assert_eq!(*task.description.value(), "water the plants");
    assert_eq!(*task.added.clock(), clock(3, 1, 4));
    assert_eq!(*task.complete.clock(), clock(3, 1, 4));
    assert_eq!(*task.description.clock(), clock(3, 1, 4));
}

#[test]
fn task_new_is_added_now() {
    let task = Task::new("read".to_string(), clock(3, 1, 4));
    assert!(task.added.value().secs > 1_600_000_000);
    assert_eq!(*task.complete.value(), false);
    assert_eq!(*task.description.value(), "read");
    assert_eq!(*task.added.clock(), clock(3, 1, 4));
}

#[test]
fn task_shows_as_a_checkbox_and_its_description() {
    let mut task = Task::new_at("water the plants".to_string(), clock(1, 0, 0), Timestamp::new(1, 0));
    assert_eq!(task.to_string(), "[ ] water the plants");
    task.complete.set(true, clock(2, 0, 0));
    assert_eq!(task.to_string(), "[x] water the plants");
    task.description.set(String::new(), clock(2, 0, 0));
    assert_eq!(task.to_string(), "[x] ");
}

#[test]
fn task_highest_clock_is_the_latest_of_the_three() {
    let mut task = Task::new_at("a".to_string(), clock(1, 0, 0), Timestamp::new(1, 0));
    assert_eq!(*task.highest_clock(), clock(1, 0, 0));
    task.complete.set(true, clock(5, 0, 0));
    assert_eq!(*task.highest_clock(), clock(5, 0, 0));
    task.description.set("b".to_string(), clock(3, 0, 0));
    assert_eq!(*task.highest_clock(), clock(5, 0, 0));
    task.description.set("c".to_string(), clock(5, 0, 1));
    assert_eq!(*task.highest_clock(), clock(5, 0, 1));
    task.added.set(Timestamp::new(0, 0), clock(9, 0, 0));
    assert_eq!(*task.highest_clock(), clock(9, 0, 0));
}

#[test]
fn task_merge_settles_each_register_on_its_own() {
    let base = Task::new_at("draft".to_string(), clock(1, 0, 1), Timestamp::new(50, 0));
    let mut completed = base.clone();
    completed.complete.set(true, clock(2, 0, 1));
    let mut renamed = base.clone();
    renamed.description.set("final".to_string(), clock(3, 0, 2));
    let one_way = completed.clone().merge(renamed.clone());
    let other_way = renamed.merge(completed);
    assert_eq!(one_way, other_way);
    assert_eq!(*one_way.complete.value(), true);
    assert_eq!(*one_way.description.value(), "final");
    assert_eq!(*one_way.added.value(), Timestamp::new(50, 0));
    assert_eq!(one_way.to_string(), "[x] final");
}

#[test]
fn task_merge_laws_on_tasks_of_distinct_clocks() {
    let mut tasks = Vec::new();
    for (index, text) in ["a", "b", "c"].iter().enumerate() {
        let stamp = index as i64;
        let mut task = Task::new_at(text.to_string(), clock(stamp, 0, stamp as u128), Timestamp::new(stamp, 0));
        tasks.push(task.clone());
        task.complete.set(true, clock(stamp + 10, 1, stamp as u128));
        tasks.push(task);
    }
    for a in tasks.iter() {
        assert_eq!(a.clone().merge(a.clone()), *a);
        for b in tasks.iter() {
            assert_eq!(a.clone().merge(b.clone()), b.clone().merge(a.clone()));
            for c in tasks.iter() {
                assert_eq!(
                    a.clone().merge(b.clone()).merge(c.clone()),
                    a.clone().merge(b.clone().merge(c.clone()))
                );
            }
        }
    }
}
