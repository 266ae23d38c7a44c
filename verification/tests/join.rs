use static_ecs::component::ComponentContainer;

fn container(rows: &[(u32, i32)]) -> ComponentContainer<i32> {
    let mut c = ComponentContainer::default();
    for (e, v) in rows {
        c.push(*e, *v);
    }
    c
}

#[test]
fn join_keeps_the_entities_of_both_containers() {
    let a = container(&[(1, 10), (2, 20), (3, 30)]);
    let b = container(&[(2, 7), (3, 8)]);
    let mut join = a.iter().zip_entity(&b);
    assert_eq!(join.next(), Some((2, &20, &7)));
    assert_eq!(join.next(), Some((3, &30, &8)));
    assert_eq!(join.next(), None);
    assert_eq!(join.next(), None);
}

#[test]
fn join_follows_the_base_order() {
    let a = container(&[(3, 30), (1, 10), (2, 20)]);
    let b = container(&[(1, 5), (2, 6), (3, 7)]);
    let mut join = a.iter().zip_entity(&b);
    assert_eq!(join.next(), Some((3, &30, &7)));
    assert_eq!(join.next(), Some((1, &10, &5)));
    assert_eq!(join.next(), Some((2, &20, &6)));
    assert_eq!(join.next(), None);
}

#[test]
fn join_with_an_empty_container_is_empty() {
    let a = container(&[(1, 10), (2, 20), (3, 30)]);
    let b = ComponentContainer::<i32>::default();
    assert_eq!(a.iter().zip_entity(&b).next(), None);
    assert_eq!(b.iter().zip_entity(&a).next(), None);
}

#[test]
fn join_starts_where_the_pass_stands() {
    let a = container(&[(1, 10), (2, 20), (3, 30)]);
    let b = container(&[(1, 1), (2, 2), (3, 3)]);
    let mut base = a.iter();
    assert_eq!(base.next(), Some((1, &10)));
    let mut join = base.zip_entity(&b);
    assert_eq!(join.next(), Some((2, &20, &2)));
    assert_eq!(join.next(), Some((3, &30, &3)));
    assert_eq!(join.next(), None);
}

#[test]
fn join_of_three_needs_every_secondary() {
    let a = container(&[(1, 10), (2, 20), (3, 30), (4, 40)]);
    let b = container(&[(4, 41), (2, 21), (3, 31)]);
    let mut c = ComponentContainer::<String>::default();
    c.push(1, String::from("one"));
    c.push(4, String::from("four"));
    c.push(2, String::from("two"));
    let mut join = a.iter().zip_entity2(&b, &c);
    assert_eq!(join.next(), Some((2, &20, &21, &String::from("two"))));
    assert_eq!(join.next(), Some((4, &40, &41, &String::from("four"))));
    assert_eq!(join.next(), None);
}

#[test]
fn join_sees_orphaned_base_rows() {
    let a = container(&[(1, 10), (2, 20), (1, 11)]);
    let b = container(&[(1, 5)]);
    let mut join = a.iter().zip_entity(&b);
    assert_eq!(join.next(), Some((1, &10, &5)));
    assert_eq!(join.next(), Some((1, &11, &5)));
    assert_eq!(join.next(), None);
}

#[test]
fn mutable_join_writes_only_joined_rows() {
    let mut a = container(&[(1, 10), (2, 20), (3, 30)]);
    let b = container(&[(3, 3), (1, 1)]);
    let mut seen = Vec::new();
    let mut join = a.iter_mut().zip_entity(&b);
    while let Some((e, v, o)) = join.next() {
        seen.push(e);
        *v += *o;
    }
    assert!(join.next().is_none());
    assert_eq!(seen, vec![1, 3]);
    assert_eq!(a.get(1), Some(&11));
    assert_eq!(a.get(2), Some(&20));
    assert_eq!(a.get(3), Some(&33));
}

#[test]
fn mutable_join_of_three_writes_only_joined_rows() {
    let mut a = container(&[(1, 10), (2, 20), (3, 30)]);
    let b = container(&[(3, 3), (2, 2)]);
    let c = container(&[(1, 100), (2, 200)]);
    let mut join = a.iter_mut().zip_entity2(&b, &c);
    match join.next() {
        Some((e, v, o1, o2)) => {
            assert_eq!(e, 2);
            assert_eq!((*v, *o1, *o2), (20, 2, 200));
            *v = *o1 + *o2;
        }
        None => panic!("no row"),
    }
    assert!(join.next().is_none());
    assert_eq!(a.get(1), Some(&10));
    assert_eq!(a.get(2), Some(&202));
    assert_eq!(a.get(3), Some(&30));
}

#[test]
fn mutable_join_of_four_hands_out_values_without_the_entity() {
    let mut a = container(&[(1, 10), (2, 20), (3, 30), (4, 40)]);
    let b = container(&[(4, 4), (2, 2), (3, 3)]);
    let c = container(&[(2, 200), (4, 400), (1, 100)]);
    let d = container(&[(4, 4000), (3, 3000), (2, 2000)]);
    let mut count = 0;
    let mut join = a.iter_mut().zip_entity3(&b, &c, &d);
    while let Some((v, o1, o2, o3)) = join.next() {
        *v = *v + *o1 + *o2 + *o3;
        count += 1;
    }
    assert_eq!(count, 2);
    assert_eq!(a.get(1), Some(&10));
    assert_eq!(a.get(2), Some(&2222));
    assert_eq!(a.get(3), Some(&30));
    assert_eq!(a.get(4), Some(&4444));
}

#[test]
fn mutable_join_with_an_empty_container_is_empty() {
    let mut a = container(&[(1, 10), (2, 20)]);
    let b = ComponentContainer::<i32>::default();
    assert!(a.iter_mut().zip_entity(&b).next().is_none());
    assert_eq!(a.get(1), Some(&10));
    assert_eq!(a.get(2), Some(&20));
}
