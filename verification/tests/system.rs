use static_ecs::component::ComponentContainer;
use static_ecs::entity::EntityID;
use static_ecs::system::{commit, system0, system1, system2};

fn container(rows: &[(u32, i32)]) -> ComponentContainer<i32> {
    let mut c = ComponentContainer::default();
    for (e, v) in rows {
        c.push(*e, *v);
    }
    c
}

fn rows_of(c: &ComponentContainer<i32>) -> Vec<(EntityID, i32)> {
    let mut out = Vec::new();
    let mut it = c.iter();
    while let Some((e, v)) = it.next() {
        out.push((e, *v));
    }
    out
}

#[test]
fn pass_adds_the_secondary_to_the_primary() {
    let mut p = container(&[(1, 10)]);
    let s = container(&[(1, 5)]);
    system1((&mut p, &s), |_e, p: &i32, s: &i32| *p + *s);
    assert_eq!(p.get(1), Some(&15));
    assert_eq!(s.get(1), Some(&5));
    assert_eq!(rows_of(&s), vec![(1, 5)]);
}

#[test]
fn pass_skips_entities_without_the_secondary() {
    let mut p = container(&[(1, 10), (2, 20), (3, 30)]);
    let s = container(&[(3, 1), (1, 2)]);
    system1((&mut p, &s), |e, p: &i32, s: &i32| *p * 100 + *s * 10 + e as i32);
    assert_eq!(rows_of(&p), vec![(1, 1021), (2, 20), (3, 3013)]);
    assert_eq!(p.get(2), Some(&20));
}

#[test]
fn pass_over_one_container_touches_every_row() {
    let mut p = container(&[(4, 1), (2, 2), (8, 3)]);
    system0(&mut p, |e, v: &i32| *v + e as i32);
    assert_eq!(rows_of(&p), vec![(4, 5), (2, 4), (8, 11)]);
}

#[test]
fn pass_with_two_secondaries() {
    let mut p = container(&[(1, 1), (2, 2), (3, 3), (4, 4)]);
    let s2 = container(&[(4, 40), (3, 30), (1, 10)]);
    let s3 = container(&[(1, 100), (2, 200), (4, 400)]);
    system2((&mut p, &s2, &s3), |_e, a: &i32, b: &i32, c: &i32| *a + *b + *c);
    assert_eq!(rows_of(&p), vec![(1, 111), (2, 2), (3, 3), (4, 444)]);
    assert_eq!(rows_of(&s2), vec![(4, 40), (3, 30), (1, 10)]);
    assert_eq!(rows_of(&s3), vec![(1, 100), (2, 200), (4, 400)]);
}

#[test]
fn pass_over_an_empty_container_does_nothing() {
    let mut p = ComponentContainer::<i32>::default();
    let s = container(&[(1, 5)]);
    system0(&mut p, |_e, v: &i32| *v + 1);
    system1((&mut p, &s), |_e, v: &i32, _s: &i32| *v + 1);
    assert_eq!(p.len(), 0);
    let mut q = container(&[(1, 5)]);
    let empty = ComponentContainer::<i32>::default();
    system1((&mut q, &empty), |_e, v: &i32, _s: &i32| *v + 1);
    assert_eq!(rows_of(&q), vec![(1, 5)]);
}

#[test]
fn identity_pass_twice_changes_nothing() {
    let mut p = container(&[(3, 30), (1, 10), (2, 20)]);
    let s = container(&[(1, 5), (3, 6)]);
    system1((&mut p, &s), |_e, v: &i32, _s: &i32| *v);
    system1((&mut p, &s), |_e, v: &i32, _s: &i32| *v);
    assert_eq!(rows_of(&p), vec![(3, 30), (1, 10), (2, 20)]);
    assert_eq!(rows_of(&s), vec![(1, 5), (3, 6)]);
    for e in 0..4u32 {
        assert_eq!(p.get(e), container(&[(3, 30), (1, 10), (2, 20)]).get(e));
    }
    system0(&mut p, |_e, v: &i32| *v);
    system0(&mut p, |_e, v: &i32| *v);
    assert_eq!(rows_of(&p), vec![(3, 30), (1, 10), (2, 20)]);
}

#[test]
fn pass_computes_from_the_state_before_it() {
    let mut p = container(&[(1, 1), (2, 2), (3, 3)]);
    let snapshot = container(&[(1, 1), (2, 2), (3, 3)]);
    system0(&mut p, |e, _v: &i32| {
        let next = if e == 3 { 1 } else { e + 1 };
        *snapshot.get(next).unwrap() * 10
    });
    assert_eq!(rows_of(&p), vec![(1, 20), (2, 30), (3, 10)]);
}

#[test]
fn pass_writes_the_update_of_the_last_row_of_an_entity() {
    let mut p = container(&[(1, 10), (2, 20), (1, 11)]);
    system0(&mut p, |_e, v: &i32| *v + 100);
    assert_eq!(rows_of(&p), vec![(1, 10), (2, 120), (1, 111)]);
    assert_eq!(p.get(1), Some(&111));
}

#[test]
fn identity_pass_copies_a_later_orphan_over_the_indexed_row() {
    let mut p = container(&[(2, 20), (1, 10), (3, 30), (1, 11)]);
    p.remove(2);
    assert_eq!(rows_of(&p), vec![(1, 11), (1, 10), (3, 30)]);
    assert_eq!(p.get(1), Some(&11));
    system0(&mut p, |_e, v: &i32| *v);
    assert_eq!(rows_of(&p), vec![(1, 10), (1, 10), (3, 30)]);
    assert_eq!(p.get(1), Some(&10));
}

#[test]
fn commit_writes_in_order_and_skips_missing_entities() {
    let mut p = container(&[(1, 10), (2, 20)]);
    commit(&mut p, vec![(2, 21), (5, 50), (1, 11), (2, 22)]);
    assert_eq!(rows_of(&p), vec![(1, 11), (2, 22)]);
    assert_eq!(p.get(5), None);
    commit(&mut p, Vec::new());
    assert_eq!(rows_of(&p), vec![(1, 11), (2, 22)]);
}

#[test]
fn pass_after_a_removal_skips_the_removed_entity() {
    let mut p = container(&[(0, 1), (1, 1), (2, 1), (3, 1), (4, 1)]);
    let mut s = container(&[(0, 7), (1, 7), (2, 7), (3, 7), (4, 7)]);
    p.remove(2);
    s.remove(2);
    let mut seen = std::cell::RefCell::new(Vec::new());
    system1((&mut p, &s), |e, _v: &i32, s: &i32| {
        seen.borrow_mut().push(e);
        *s
    });
    assert_eq!(seen.get_mut().clone(), vec![0, 1, 4, 3]);
    assert_eq!(rows_of(&p), vec![(0, 7), (1, 7), (4, 7), (3, 7)]);
    assert_eq!(p.get(2), None);
}
