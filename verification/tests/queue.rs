use multiqueue::chain::Chain;
use multiqueue::handle::MultiQueue;
use std::rc::Rc;

#[test]
fn simple() {
    let (mut q, mut chain): (MultiQueue<&str>, Chain<&str>) = MultiQueue::new();
    q.push(&mut chain, "one");
    q.push(&mut chain, "two");
    q.push(&mut chain, "three");
    assert_eq!("one", q.pull(&mut chain).unwrap());
    assert_eq!("two", q.pull(&mut chain).unwrap());
    assert_eq!("three", q.pull(&mut chain).unwrap());
    assert_eq!(std::option::Option::None, q.pull(&mut chain));
}

#[test]
fn new_handle_stands_at_the_start_of_an_empty_chain() {
    let (mut q, mut chain): (MultiQueue<u32>, Chain<u32>) = MultiQueue::new();
    assert!(q.is_on(&chain));
    assert_eq!(0, chain.len());
    assert_eq!(0, chain.held_from());
    assert_eq!(0, q.position(&chain));
    assert_eq!(None, q.pull(&mut chain));
    assert_eq!(0, q.position(&chain));
}

#[test]
fn pushes_come_out_in_the_order_pushed() {
    let (mut q, mut chain): (MultiQueue<u32>, Chain<u32>) = MultiQueue::new();
    let pushed: Vec<u32> = vec![7, 3, 7, 0, 42, 9];
    for v in pushed.iter() {
        q.push(&mut chain, *v);
    }
    assert_eq!(pushed.len(), chain.len());
    let mut pulled: Vec<u32> = Vec::new();
    while let Some(v) = q.pull(&mut chain) {
        pulled.push(v);
    }
    assert_eq!(pushed, pulled);
    assert_eq!(None, q.pull(&mut chain));
    assert_eq!(None, q.pull(&mut chain));
}

#[test]
fn push_leaves_the_pushing_handle_in_place() {
    let (mut q, mut chain): (MultiQueue<u32>, Chain<u32>) = MultiQueue::new();
    q.push(&mut chain, 1);
    assert_eq!(0, q.position(&chain));
    q.push(&mut chain, 2);
    assert_eq!(0, q.position(&chain));
    assert_eq!(2, chain.len());
    assert_eq!(0, chain.held_from());
}

#[test]
fn pull_moves_one_cell_at_a_time() {
    let (mut q, mut chain): (MultiQueue<u32>, Chain<u32>) = MultiQueue::new();
    q.push(&mut chain, 10);
    q.push(&mut chain, 20);
    assert_eq!(Some(10), q.pull(&mut chain));
    assert_eq!(1, q.position(&chain));
    assert_eq!(Some(20), q.pull(&mut chain));
    assert_eq!(2, q.position(&chain));
    assert_eq!(None, q.pull(&mut chain));
    assert_eq!(2, q.position(&chain));
}

#[test]
fn pull_at_the_end_keeps_returning_none_and_does_not_move() {
    let (mut q, mut chain): (MultiQueue<u32>, Chain<u32>) = MultiQueue::new();
    q.push(&mut chain, 5);
    assert_eq!(Some(5), q.pull(&mut chain));
    for _ in 0..100 {
        assert_eq!(None, q.pull(&mut chain));
        assert_eq!(1, q.position(&chain));
    }
    assert_eq!(1, chain.len());
}

#[test]
fn pull_resumes_when_the_chain_grows() {
    let (mut q, mut chain): (MultiQueue<u32>, Chain<u32>) = MultiQueue::new();
    q.push(&mut chain, 1);
    assert_eq!(Some(1), q.pull(&mut chain));
    assert_eq!(None, q.pull(&mut chain));
    q.push(&mut chain, 2);
    assert_eq!(Some(2), q.pull(&mut chain));
    assert_eq!(None, q.pull(&mut chain));
}

#[test]
fn handle_reads_what_it_has_just_pushed() {
    let (mut q, mut chain): (MultiQueue<u32>, Chain<u32>) = MultiQueue::new();
    for v in 0..50 {
        q.push(&mut chain, v);
        assert_eq!(Some(v), q.pull(&mut chain));
        assert_eq!(None, q.pull(&mut chain));
    }
}

#[test]
fn push_through_an_advanced_handle_appends_at_the_end() {
    let (mut q, mut chain): (MultiQueue<u32>, Chain<u32>) = MultiQueue::new();
    let mut all = q.clone(&mut chain);
    q.push(&mut chain, 1);
    q.push(&mut chain, 2);
    q.push(&mut chain, 3);
    assert_eq!(Some(1), q.pull(&mut chain));
    q.push(&mut chain, 4);
    assert_eq!(vec![2, 3, 4], q.drain(&mut chain));
    assert_eq!(vec![1, 2, 3, 4], all.drain(&mut chain));
}

#[test]
fn duplicate_made_before_the_first_pull_reads_everything() {
    let (mut q, mut chain): (MultiQueue<&str>, Chain<&str>) = MultiQueue::new();
    q.push(&mut chain, "a");
    q.push(&mut chain, "b");
    let mut twin = q.clone(&mut chain);
    q.push(&mut chain, "c");
    assert_eq!(vec!["a", "b", "c"], q.drain(&mut chain));
    assert_eq!(vec!["a", "b", "c"], twin.drain(&mut chain));
    assert_eq!(None, q.pull(&mut chain));
    assert_eq!(None, twin.pull(&mut chain));
}

#[test]
fn duplicate_starts_where_the_handle_stands() {
    let (mut q, mut chain): (MultiQueue<u32>, Chain<u32>) = MultiQueue::new();
    for v in 1..=5 {
        q.push(&mut chain, v);
    }
    assert_eq!(Some(1), q.pull(&mut chain));
    assert_eq!(Some(2), q.pull(&mut chain));
    let mut twin = q.clone(&mut chain);
    assert!(twin.is_on(&chain));
    assert_eq!(q.position(&chain), twin.position(&chain));
    q.push(&mut chain, 6);
    assert_eq!(vec![3, 4, 5, 6], twin.drain(&mut chain));
    assert_eq!(vec![3, 4, 5, 6], q.drain(&mut chain));
}

#[test]
fn duplicates_move_independently() {
    let (mut a, mut chain): (MultiQueue<u32>, Chain<u32>) = MultiQueue::new();
    let mut b = a.clone(&mut chain);
    a.push(&mut chain, 1);
    a.push(&mut chain, 2);
    assert_eq!(Some(1), a.pull(&mut chain));
    assert_eq!(Some(2), a.pull(&mut chain));
    assert_eq!(None, a.pull(&mut chain));
    assert_eq!(0, b.position(&chain));
    assert_eq!(Some(1), b.pull(&mut chain));
    assert_eq!(2, a.position(&chain));
    b.push(&mut chain, 3);
    assert_eq!(Some(3), a.pull(&mut chain));
    assert_eq!(Some(2), b.pull(&mut chain));
    assert_eq!(Some(3), b.pull(&mut chain));
    assert_eq!(None, b.pull(&mut chain));
    assert_eq!(None, a.pull(&mut chain));
}

#[test]
fn handles_agree_on_pushes_from_several_producers() {
    let (mut left, mut chain): (MultiQueue<(u8, u32)>, Chain<(u8, u32)>) = MultiQueue::new();
    let mut right = left.clone(&mut chain);
    let mut producers: Vec<MultiQueue<(u8, u32)>> = Vec::new();
    for _ in 0..3 {
        producers.push(left.clone(&mut chain));
    }
    let mut expected: Vec<(u8, u32)> = Vec::new();
    for round in 0..20u32 {
        // the producers take turns in an order that changes from round to round
        for turn in 0..3u32 {
            let who = ((round + 2 * turn) % 3) as usize;
            producers[who].push(&mut chain, (who as u8, round));
            expected.push((who as u8, round));
        }
    }
    let seen_left = left.drain(&mut chain);
    let seen_right = right.drain(&mut chain);
    assert_eq!(60, seen_left.len());
    assert_eq!(seen_left, seen_right);
    assert_eq!(expected, seen_left);
}

#[test]
fn drain_returns_what_is_pending_and_catches_up() {
    let (mut q, mut chain): (MultiQueue<String>, Chain<String>) = MultiQueue::new();
    assert_eq!(Vec::<String>::new(), q.drain(&mut chain));
    assert_eq!(0, q.position(&chain));
    q.push(&mut chain, String::from("x"));
    q.push(&mut chain, String::from("y"));
    q.push(&mut chain, String::from("z"));
    assert_eq!(Some(String::from("x")), q.pull(&mut chain));
    assert_eq!(vec![String::from("y"), String::from("z")], q.drain(&mut chain));
    assert_eq!(3, q.position(&chain));
    assert_eq!(Vec::<String>::new(), q.drain(&mut chain));
    assert_eq!(None, q.pull(&mut chain));
    assert_eq!(3, q.position(&chain));
}

#[test]
fn pulled_item_is_a_copy_of_the_cell() {
    let (mut q, mut chain): (MultiQueue<String>, Chain<String>) = MultiQueue::new();
    let mut late = q.clone(&mut chain);
    q.push(&mut chain, String::from("kept"));
    let mut taken = q.pull(&mut chain).unwrap();
    taken.push_str(" and changed");
    assert_eq!(1, chain.len());
    assert_eq!(Some(&String::from("kept")), chain.get(0));
    assert_eq!(Some(String::from("kept")), late.pull(&mut chain));
}

#[test]
fn passed_cells_are_never_read_again() {
    let (mut q, mut chain): (MultiQueue<u32>, Chain<u32>) = MultiQueue::new();
    for v in 0..10 {
        q.push(&mut chain, v);
    }
    for v in 0..4 {
        assert_eq!(Some(v), q.pull(&mut chain));
    }
    let mut twin = q.clone(&mut chain);
    let mut seen = q.drain(&mut chain);
    seen.extend(twin.drain(&mut chain));
    assert!(seen.iter().all(|v| *v >= 4));
    assert_eq!(vec![4, 5, 6, 7, 8, 9, 4, 5, 6, 7, 8, 9], seen);
}

#[test]
fn chain_holds_the_cells_from_the_lowest_handle_on() {
    let (mut slow, mut chain): (MultiQueue<u32>, Chain<u32>) = MultiQueue::new();
    let mut fast = slow.clone(&mut chain);
    for v in [11, 22, 33] {
        fast.push(&mut chain, v);
    }
    assert_eq!(3, chain.len());
    assert_eq!(0, chain.held_from());
    assert_eq!(Some(&11), chain.get(0));
    assert_eq!(Some(&22), chain.get(1));
    assert_eq!(Some(&33), chain.get(2));
    assert_eq!(None, chain.get(3));
    assert_eq!(None, chain.get(usize::MAX));

    assert_eq!(vec![11, 22, 33], fast.drain(&mut chain));
    assert_eq!(0, chain.held_from());
    assert_eq!(Some(&11), chain.get(0));

    assert_eq!(Some(11), slow.pull(&mut chain));
    assert_eq!(1, chain.held_from());
    assert_eq!(None, chain.get(0));
    assert_eq!(Some(&22), chain.get(1));

    assert_eq!(Some(22), slow.pull(&mut chain));
    assert_eq!(2, chain.held_from());
    assert_eq!(None, chain.get(1));
    assert_eq!(Some(&33), chain.get(2));
    assert_eq!(3, chain.len());

    fast.push(&mut chain, 44);
    assert_eq!(2, chain.held_from());
    assert_eq!(Some(&44), chain.get(3));
    assert_eq!(vec![33, 44], slow.drain(&mut chain));
    assert_eq!(3, chain.held_from());
    assert_eq!(Some(44), fast.pull(&mut chain));
    assert_eq!(4, chain.held_from());
    assert_eq!(4, chain.len());
    assert_eq!(None, chain.get(3));
}

#[test]
fn cell_is_dropped_when_the_last_handle_has_passed_it() {
    let (mut a, mut chain): (MultiQueue<Rc<u32>>, Chain<Rc<u32>>) = MultiQueue::new();
    let mut b = a.clone(&mut chain);
    let first = Rc::new(1);
    let second = Rc::new(2);
    let watch_first = Rc::downgrade(&first);
    let watch_second = Rc::downgrade(&second);
    a.push(&mut chain, first);
    a.push(&mut chain, second);
    assert_eq!(1, watch_first.strong_count());
    assert_eq!(1, watch_second.strong_count());

    // one handle passes the first cell: the other can still reach it
    let got = a.pull(&mut chain).unwrap();
    assert_eq!(1, *got);
    assert_eq!(2, watch_first.strong_count());
    drop(got);
    assert_eq!(1, watch_first.strong_count());

    // the last handle passes it: only what was handed out is left
    let got = b.pull(&mut chain).unwrap();
    assert_eq!(1, *got);
    assert_eq!(1, watch_first.strong_count());
    drop(got);
    assert_eq!(0, watch_first.strong_count());
    assert!(watch_first.upgrade().is_none());

    // the cell behind it is still there for both
    assert_eq!(1, watch_second.strong_count());
    assert_eq!(2, *a.pull(&mut chain).unwrap());
    assert_eq!(1, watch_second.strong_count());
    assert_eq!(2, *b.pull(&mut chain).unwrap());
    assert_eq!(0, watch_second.strong_count());
}

#[test]
fn releasing_a_handle_gives_up_what_only_it_could_reach() {
    let (mut fast, mut chain): (MultiQueue<Rc<u32>>, Chain<Rc<u32>>) = MultiQueue::new();
    let slow = fast.clone(&mut chain);
    let items: Vec<Rc<u32>> = vec![Rc::new(1), Rc::new(2), Rc::new(3)];
    for item in items.iter() {
        fast.push(&mut chain, item.clone());
    }
    assert_eq!(Some(1), fast.pull(&mut chain).map(|item| *item));
    assert_eq!(Some(2), fast.pull(&mut chain).map(|item| *item));
    assert_eq!(0, chain.held_from());
    assert_eq!(vec![2, 2, 2], items.iter().map(Rc::strong_count).collect::<Vec<usize>>());

    slow.release(&mut chain);
    assert_eq!(2, chain.held_from());
    assert_eq!(vec![1, 1, 2], items.iter().map(Rc::strong_count).collect::<Vec<usize>>());
    assert_eq!(3, chain.len());
    assert_eq!(Some(3), fast.pull(&mut chain).map(|item| *item));
    assert_eq!(vec![1, 1, 1], items.iter().map(Rc::strong_count).collect::<Vec<usize>>());
}

#[test]
fn chain_without_handles_holds_nothing() {
    let (mut q, mut chain): (MultiQueue<Rc<u32>>, Chain<Rc<u32>>) = MultiQueue::new();
    let item = Rc::new(9);
    q.push(&mut chain, item.clone());
    q.push(&mut chain, item.clone());
    assert_eq!(3, Rc::strong_count(&item));
    q.release(&mut chain);
    assert_eq!(1, Rc::strong_count(&item));
    assert_eq!(2, chain.len());
    assert_eq!(2, chain.held_from());
    assert_eq!(None, chain.get(0));
    assert_eq!(None, chain.get(1));
}

#[test]
fn released_handle_is_no_longer_on_the_chain() {
    let (mut q, mut chain): (MultiQueue<u32>, Chain<u32>) = MultiQueue::new();
    let (other, other_chain): (MultiQueue<u32>, Chain<u32>) = MultiQueue::new();
    let second = q.clone(&mut chain);
    let third = q.clone(&mut chain);
    assert!(second.is_on(&chain));
    assert!(third.is_on(&chain));
    assert!(other.is_on(&other_chain));
    // the other chain has one handle and keeps no place for a second or third
    assert!(!second.is_on(&other_chain));
    assert!(!third.is_on(&other_chain));
    second.release(&mut chain);
    // a new duplicate takes the place that was given back
    let mut fourth = q.clone(&mut chain);
    assert!(fourth.is_on(&chain));
    assert!(third.is_on(&chain));
    q.push(&mut chain, 8);
    assert_eq!(Some(8), fourth.pull(&mut chain));
    assert_eq!(0, third.position(&chain));
    assert_eq!(0, q.position(&chain));
}
