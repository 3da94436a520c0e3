use shooter::objects::Objects;
use shooter::tex::Sprite;
use std::cell::RefCell;

#[test]
fn new_keeps_members_and_sprite() {
    let objects = Objects::new(vec![3, 1, 2], Sprite::Asteroid);
    assert_eq!(objects.len(), 3);
    assert_eq!(objects.as_vec(), &vec![3, 1, 2]);
    assert_eq!(objects.sprite(), Sprite::Asteroid);
    assert_eq!(*objects.get(1), 1);
    assert_eq!(objects.into_vec(), vec![3, 1, 2]);
}

#[test]
fn push_set_and_clear() {
    let mut objects = Objects::new(Vec::new(), Sprite::Fuel);
    assert_eq!(objects.len(), 0);
    objects.push(7);
    objects.push(8);
    objects.set(0, 9);
    assert_eq!(objects.as_vec(), &vec![9, 8]);
    objects.clear();
    assert_eq!(objects.len(), 0);
    assert_eq!(objects.sprite(), Sprite::Fuel);
}

#[test]
fn iterate_walks_forward_and_threads_the_context() {
    let mut objects = Objects::new(vec![10, 20, 30], Sprite::Fuel);
    let seen = objects.iterate(Vec::new(), &|mut seen: Vec<i32>, obj: i32| {
        seen.push(obj);
        let order = seen.len() as i32;
        (seen, obj + order)
    });
    assert_eq!(seen, vec![10, 20, 30]);
    assert_eq!(objects.as_vec(), &vec![11, 22, 33]);
}

#[test]
fn iterate_on_nothing_returns_the_context() {
    let mut objects: Objects<u8> = Objects::new(Vec::new(), Sprite::Fuel);
    let out = objects.iterate(5, &|c: i32, obj: u8| (c + 1, obj));
    assert_eq!(out, 5);
    assert_eq!(objects.len(), 0);
}

#[test]
fn iterate_rmv_indices_walks_backward_and_keeps_the_order_of_the_rest() {
    let mut objects = Objects::new(vec![1, 2, 3, 4, 5, 6], Sprite::Bullet);
    let (seen, removed) = objects.iterate_rmv_indices(Vec::new(), &|mut seen: Vec<i32>, obj: i32| {
        seen.push(obj);
        (seen, obj * 10, obj % 2 == 0)
    });
    assert_eq!(seen, vec![6, 5, 4, 3, 2, 1]);
    assert_eq!(removed, 3);
    assert_eq!(objects.as_vec(), &vec![10, 30, 50]);
    assert_eq!(objects.sprite(), Sprite::Bullet);
}

#[test]
fn iterate_rmv_indices_can_remove_all_or_none() {
    let mut all = Objects::new(vec![1, 2, 3], Sprite::Fuel);
    let (_, removed) = all.iterate_rmv_indices((), &|c: (), obj: i32| (c, obj, true));
    assert_eq!(removed, 3);
    assert_eq!(all.len(), 0);

    let mut none = Objects::new(vec![1, 2, 3], Sprite::Fuel);
    let (_, removed) = none.iterate_rmv_indices((), &|c: (), obj: i32| (c, obj + 1, false));
    assert_eq!(removed, 0);
    assert_eq!(none.as_vec(), &vec![2, 3, 4]);

    let mut empty: Objects<i32> = Objects::new(Vec::new(), Sprite::Fuel);
    let (out, removed) = empty.iterate_rmv_indices(9, &|c: i32, obj: i32| (c + 1, obj, true));
    assert_eq!((out, removed), (9, 0));
}

#[test]
fn iterate_rmv_indices_removes_the_ends() {
    let mut objects = Objects::new(vec![1, 2, 3, 4], Sprite::Fuel);
    let (_, removed) =
        objects.iterate_rmv_indices((), &|c: (), obj: i32| (c, obj, obj == 1 || obj == 4));
    assert_eq!(removed, 2);
    assert_eq!(objects.as_vec(), &vec![2, 3]);
}

#[test]
fn self_collision_meets_every_pair_once_in_order() {
    let log = RefCell::new(Vec::new());
    let mut objects = Objects::new(vec![0usize, 1, 2, 3], Sprite::Asteroid);
    objects.self_collision(&|a: usize, b: usize| {
        log.borrow_mut().push((a, b));
        (a, b)
    });
    assert_eq!(log.into_inner(), vec![(0, 1), (0, 2), (0, 3), (1, 2), (1, 3), (2, 3)]);
    assert_eq!(objects.as_vec(), &vec![0, 1, 2, 3]);
}

#[test]
fn self_collision_starts_each_meeting_from_the_last() {
    // Every meeting moves one unit from the second member to the first.
    let mut objects = Objects::new(vec![(0u32, 0i32), (1, 0), (2, 0)], Sprite::Asteroid);
    objects.self_collision(&|a: (u32, i32), b: (u32, i32)| ((a.0, a.1 + 1), (b.0, b.1 - 1)));
    assert_eq!(objects.as_vec(), &vec![(0, 2), (1, 0), (2, -2)]);
}

#[test]
fn self_collision_of_fewer_than_two_does_nothing() {
    let calls = RefCell::new(0);
    let mut none: Objects<u8> = Objects::new(Vec::new(), Sprite::Fuel);
    let mut one = Objects::new(vec![4u8], Sprite::Fuel);
    let step = |a: u8, b: u8| {
        *calls.borrow_mut() += 1;
        (a, b)
    };
    none.self_collision(&step);
    one.self_collision(&step);
    assert_eq!(*calls.borrow(), 0);
    assert_eq!(one.as_vec(), &vec![4]);
}

#[test]
fn draw_hands_out_every_member_with_the_sprite() {
    let log = RefCell::new(Vec::new());
    let objects = Objects::new(vec![5, 6, 7], Sprite::Fuel);
    let result: Result<(), String> = objects.draw(|obj: &i32, sprite: Sprite| {
        log.borrow_mut().push((*obj, sprite));
        Ok(())
    });
    assert_eq!(result, Ok(()));
    assert_eq!(
        log.into_inner(),
        vec![(5, Sprite::Fuel), (6, Sprite::Fuel), (7, Sprite::Fuel)]
    );
}

#[test]
fn draw_stops_at_the_first_error() {
    let log = RefCell::new(Vec::new());
    let objects = Objects::new(vec![5, 6, 7, 8], Sprite::Asteroid);
    let result = objects.draw(|obj: &i32, _sprite: Sprite| {
        log.borrow_mut().push(*obj);
        if *obj >= 6 {
            Err(format!("cannot draw {}", obj))
        } else {
            Ok(())
        }
    });
    assert_eq!(result, Err("cannot draw 6".to_string()));
    assert_eq!(log.into_inner(), vec![5, 6]);
}

#[test]
fn draw_lines_stops_at_the_first_error() {
    let log = RefCell::new(Vec::new());
    let objects = Objects::new(vec![1, 2, 3], Sprite::Asteroid);
    let result = objects.draw_lines(|obj: &i32| {
        log.borrow_mut().push(*obj);
        if *obj == 3 {
            Err(*obj)
        } else {
            Ok(())
        }
    });
    assert_eq!(result, Err(3));
    assert_eq!(log.into_inner(), vec![1, 2, 3]);

    let nothing: Objects<i32> = Objects::new(Vec::new(), Sprite::Asteroid);
    let result: Result<(), i32> = nothing.draw_lines(|_obj: &i32| Err(0));
    assert_eq!(result, Ok(()));
}
