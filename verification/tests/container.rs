use static_ecs::component::{CContainer, Component, ComponentContainer};
use static_ecs::entity::{EntityID, ID};

fn rows_of<T: Clone>(c: &ComponentContainer<T>) -> Vec<(EntityID, T)> {
    let mut out = Vec::new();
    let mut it = c.iter();
    while let Some((e, v)) = it.next() {
        out.push((e, v.clone()));
    }
    out
}

#[test]
fn component_record_accessors() {
    let mut c = Component::new(7, String::from("a"));
    assert_eq!(c.entity_id(), 7);
    assert_eq!(c.inner(), "a");
    c.inner_mut().push('b');
    assert_eq!(c.inner(), "ab");
    assert_eq!(c.entity_id(), 7);
}

#[test]
fn entity_ids_follow_each_other() {
    let first: EntityID = 0;
    let second = first.next();
    let third = second.next();
    assert_eq!(second, 1);
    assert_eq!(third, 2);
    assert_eq!((u32::MAX - 1).next(), u32::MAX);
}

#[test]
fn default_container_is_empty() {
    let c = ComponentContainer::<i32>::default();
    assert_eq!(c.len(), 0);
    assert_eq!(c.get(0), None);
    assert!(c.iter().next().is_none());
}

#[test]
fn get_finds_the_pushed_value_of_each_entity() {
    let mut c = CContainer::<i32>::default();
    c.push(5, 50);
    c.push(1, 10);
    c.push(9, 90);
    assert_eq!(c.get(5), Some(&50));
    assert_eq!(c.get(1), Some(&10));
    assert_eq!(c.get(9), Some(&90));
    assert_eq!(c.get(2), None);
    assert_eq!(c.len(), 3);
}

#[test]
fn iter_yields_lookups_in_append_order() {
    let mut c = ComponentContainer::<i32>::default();
    c.push(5, 50);
    c.push(1, 10);
    c.push(9, 90);
    let rows = rows_of(&c);
    assert_eq!(rows, vec![(5, 50), (1, 10), (9, 90)]);
    for (e, v) in rows.iter() {
        assert_eq!(c.get(*e), Some(v));
    }
    assert_eq!(rows.len(), c.len());
}

#[test]
fn iter_starts_over_on_each_call() {
    let mut c = ComponentContainer::<i32>::default();
    c.push(1, 10);
    c.push(2, 20);
    let mut first = c.iter();
    assert_eq!(first.next(), Some((1, &10)));
    let mut second = c.iter();
    assert_eq!(second.next(), Some((1, &10)));
    assert_eq!(first.next(), Some((2, &20)));
    assert_eq!(first.next(), None);
    assert_eq!(first.next(), None);
    assert_eq!(second.next(), Some((2, &20)));
}

#[test]
fn second_push_orphans_the_first_record() {
    let mut c = ComponentContainer::<i32>::default();
    c.push(1, 10);
    c.push(2, 20);
    c.push(1, 11);
    assert_eq!(c.get(1), Some(&11));
    assert_eq!(c.len(), 3);
    assert_eq!(rows_of(&c), vec![(1, 10), (2, 20), (1, 11)]);
}

#[test]
fn get_mut_writes_in_place() {
    let mut c = ComponentContainer::<i32>::default();
    c.push(1, 10);
    c.push(2, 20);
    if let Some(v) = c.get_mut(2) {
        assert_eq!(*v, 20);
        *v = 21;
    }
    assert!(c.get_mut(3).is_none());
    assert_eq!(c.get(1), Some(&10));
    assert_eq!(c.get(2), Some(&21));
    assert_eq!(rows_of(&c), vec![(1, 10), (2, 21)]);
}

#[test]
fn iter_mut_hands_out_every_row() {
    let mut c = ComponentContainer::<i32>::default();
    c.push(4, 1);
    c.push(2, 2);
    c.push(8, 3);
    let mut seen = Vec::new();
    let mut it = c.iter_mut();
    assert_eq!(it.peek(), Some(4));
    while let Some((e, v)) = it.next() {
        seen.push(e);
        *v = *v * 10 + e as i32;
    }
    assert_eq!(it.peek(), None);
    assert!(it.next().is_none());
    assert_eq!(seen, vec![4, 2, 8]);
    assert_eq!(rows_of(&c), vec![(4, 14), (2, 22), (8, 38)]);
    assert_eq!(c.get(2), Some(&22));
}

#[test]
fn iter_mut_skip_leaves_the_row_alone() {
    let mut c = ComponentContainer::<i32>::default();
    c.push(1, 10);
    c.push(2, 20);
    let mut it = c.iter_mut();
    it.skip();
    if let Some((e, v)) = it.next() {
        assert_eq!(e, 2);
        *v = 0;
    }
    it.skip();
    assert!(it.next().is_none());
    assert_eq!(rows_of(&c), vec![(1, 10), (2, 0)]);
}

#[test]
fn remove_swaps_the_last_record_in() {
    let mut c = ComponentContainer::<i32>::default();
    c.push(1, 10);
    c.push(2, 20);
    c.push(3, 30);
    c.push(4, 40);
    c.remove(2);
    assert_eq!(c.get(2), None);
    assert_eq!(rows_of(&c), vec![(1, 10), (4, 40), (3, 30)]);
    assert_eq!(c.get(1), Some(&10));
    assert_eq!(c.get(3), Some(&30));
    assert_eq!(c.get(4), Some(&40));
    assert_eq!(c.len(), 3);
}

#[test]
fn remove_of_the_last_record_truncates() {
    let mut c = ComponentContainer::<i32>::default();
    c.push(1, 10);
    c.push(2, 20);
    c.remove(2);
    assert_eq!(rows_of(&c), vec![(1, 10)]);
    assert_eq!(c.get(2), None);
    c.remove(1);
    assert_eq!(c.len(), 0);
    assert_eq!(c.get(1), None);
}

#[test]
fn remove_of_an_absent_entity_changes_nothing() {
    let mut c = ComponentContainer::<i32>::default();
    c.remove(3);
    assert_eq!(c.len(), 0);
    c.push(1, 10);
    c.push(2, 20);
    c.remove(3);
    assert_eq!(rows_of(&c), vec![(1, 10), (2, 20)]);
    c.remove(1);
    c.remove(1);
    assert_eq!(rows_of(&c), vec![(2, 20)]);
    assert_eq!(c.get(2), Some(&20));
}

#[test]
fn remove_does_not_bring_an_orphan_back() {
    let mut c = ComponentContainer::<i32>::default();
    c.push(7, 70);
    c.push(1, 10);
    c.push(1, 11);
    c.remove(1);
    assert_eq!(c.get(1), None);
    assert_eq!(rows_of(&c), vec![(7, 70), (1, 10)]);
    c.remove(7);
    assert_eq!(c.get(7), None);
    assert_eq!(c.get(1), None);
    assert_eq!(rows_of(&c), vec![(1, 10)]);
}

#[test]
fn push_after_remove_indexes_the_entity_again() {
    let mut c = ComponentContainer::<i32>::default();
    c.push(1, 10);
    c.push(2, 20);
    c.remove(1);
    c.push(1, 12);
    assert_eq!(c.get(1), Some(&12));
    assert_eq!(rows_of(&c), vec![(2, 20), (1, 12)]);
}

#[test]
fn removal_order_does_not_change_what_is_left() {
    let build = || {
        let mut c = ComponentContainer::<i32>::default();
        for e in 0..6u32 {
            c.push(e, e as i32 * 10);
        }
        c
    };
    let mut a = build();
    a.remove(1);
    a.remove(4);
    a.remove(2);
    let mut b = build();
    b.remove(2);
    b.remove(1);
    b.remove(4);
    for e in 0..6u32 {
        assert_eq!(a.get(e), b.get(e));
    }
    assert_eq!(a.get(1), None);
    assert_eq!(a.get(2), None);
    assert_eq!(a.get(4), None);
    assert_eq!(a.get(0), Some(&0));
    assert_eq!(a.get(3), Some(&30));
    assert_eq!(a.get(5), Some(&50));
    assert_eq!(a.len(), 3);
    assert_eq!(b.len(), 3);
}
