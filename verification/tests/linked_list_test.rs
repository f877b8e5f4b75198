use localcache::linked_list::DoublyLinkedList;
use localcache::linked_list::List;

#[test]
fn list_array_test_list() {
    let mut list = DoublyLinkedList::new();
    list.push_back(20);
    list.push_front(10);
    list.push_back(30);
    println!("{:?}", list.iter());
    assert_eq!(list.iter(), vec![10, 20, 30]);
    let front = list.pop_front();
    println!("{:?}", front);
    assert_eq!(front, Some(10));
    let back = list.pop_back();
    println!("{:?}", back);
    assert_eq!(back, Some(30));
    println!("{:?}", list.iter());
    assert_eq!(list.iter(), vec![20]);
}

#[test]
fn list_raw_test_list() {
    let mut list = DoublyLinkedList::new();
    list.push_back(2);
    list.push_front(1);
    list.push_back(3);
    println!("{:?}", list.iter());
    assert_eq!(list.iter(), vec![1, 2, 3]);
    let front = list.pop_front();
    println!("{:?}", front);
    assert_eq!(front, Some(1));
    let back = list.pop_back();
    println!("{:?}", back);
    assert_eq!(back, Some(3));
    println!("{:?}", list.iter());
    assert_eq!(list.iter(), vec![2]);
}

#[test]
fn list_refcell_test_list() {
    let mut list = List::new();
    list.push_back(1);
    list.push_back(2);
    list.push_front(0);

    let first = list.pop_front();
    println!("pop_front: {:?}", first);
    assert_eq!(first, Some(0));
    let second = list.pop_back();
    println!("pop_back: {:?}", second);
    assert_eq!(second, Some(2));
    let third = list.pop_back();
    println!("pop_back: {:?}", third);
    assert_eq!(third, Some(1));
    let fourth = list.pop_back();
    println!("pop_back: {:?}", fourth);
    assert_eq!(fourth, None);
}

#[test]
fn list_refcell_weak_test_list() {
    let mut list = DoublyLinkedList::new();
    list.push_back(1);
    list.push_front(0);
    list.push_back(2);
    println!("{:?}", list.iter());
    assert_eq!(list.iter(), vec![0, 1, 2]);
    let front = list.pop_front();
    println!("{:?}", front);
    assert_eq!(front, Some(0));
    let back = list.pop_back();
    println!("{:?}", back);
    assert_eq!(back, Some(2));
    println!("{:?}", list.iter());
    assert_eq!(list.iter(), vec![1]);
}

#[test]
fn list_starts_empty() {
    let mut list: DoublyLinkedList<u32> = DoublyLinkedList::new();
    assert!(list.is_empty());
    assert_eq!(list.len(), 0);
    assert_eq!(list.front(), None);
    assert_eq!(list.back(), None);
    assert_eq!(list.pop_front(), None);
    assert_eq!(list.pop_back(), None);
    assert_eq!(list.iter(), Vec::<u32>::new());
    assert_eq!(list.slots(), Vec::<usize>::new());
}

#[test]
fn list_remove_by_handle_at_head_tail_and_middle() {
    let mut list = DoublyLinkedList::new();
    list.push_back('a');
    list.push_back('b');
    list.push_back('c');
    list.push_back('d');
    list.push_back('e');
    let slots = list.slots();
    assert_eq!(slots.len(), 5);

    assert_eq!(*list.get(slots[2]), 'c');
    assert_eq!(list.remove(slots[2]), 'c');
    assert_eq!(list.iter(), vec!['a', 'b', 'd', 'e']);

    assert_eq!(list.remove(slots[0]), 'a');
    assert_eq!(list.iter(), vec!['b', 'd', 'e']);
    assert_eq!(list.front(), Some(slots[1]));

    assert_eq!(list.remove(slots[4]), 'e');
    assert_eq!(list.iter(), vec!['b', 'd']);
    assert_eq!(list.back(), Some(slots[3]));
    assert_eq!(list.len(), 2);
}

#[test]
fn list_move_to_front_keeps_handles() {
    let mut list = DoublyLinkedList::new();
    list.push_back(1);
    list.push_back(2);
    list.push_back(3);
    let slots = list.slots();

    list.move_to_front(slots[2]);
    assert_eq!(list.iter(), vec![3, 1, 2]);
    assert_eq!(list.slots(), vec![slots[2], slots[0], slots[1]]);

    list.move_to_front(slots[0]);
    assert_eq!(list.iter(), vec![1, 3, 2]);

    list.move_to_front(slots[0]);
    assert_eq!(list.iter(), vec![1, 3, 2]);
    assert_eq!(*list.get(slots[1]), 2);
    assert_eq!(list.back(), Some(slots[1]));
}

#[test]
fn list_reuses_freed_slots() {
    let mut list = DoublyLinkedList::new();
    list.push_back(1);
    list.push_back(2);
    list.push_back(3);
    let before = list.slots();
    assert_eq!(list.pop_front(), Some(1));
    list.push_back(4);
    let after = list.slots();
    assert_eq!(list.iter(), vec![2, 3, 4]);
    assert_eq!(after[2], before[0]);
    let mut seen = after.clone();
    seen.sort();
    seen.dedup();
    assert_eq!(seen.len(), 3);
}

#[test]
fn list_clear_empties() {
    let mut list = DoublyLinkedList::new();
    list.push_front(1);
    list.push_front(2);
    list.clear();
    assert!(list.is_empty());
    assert_eq!(list.iter(), Vec::<i32>::new());
    list.push_back(7);
    assert_eq!(list.iter(), vec![7]);
    assert_eq!(list.len(), 1);
}

#[test]
fn list_arena_grows_only_when_full() {
    let mut list = DoublyLinkedList::new();
    assert_eq!(list.arena_len(), 0);
    list.push_back(1);
    list.push_back(2);
    list.push_front(0);
    assert_eq!(list.arena_len(), 3);
    assert_eq!(list.pop_back(), Some(2));
    assert_eq!(list.pop_front(), Some(0));
    assert_eq!(list.arena_len(), 3);
    list.push_front(5);
    list.push_back(6);
    assert_eq!(list.arena_len(), 3);
    assert_eq!(list.iter(), vec![5, 1, 6]);
    list.push_back(7);
    assert_eq!(list.arena_len(), 4);
    for round in 0..100 {
        assert_eq!(list.pop_front().is_some(), true);
        list.push_back(round);
        assert_eq!(list.arena_len(), 4);
        assert_eq!(list.len(), 4);
    }
    list.clear();
    assert_eq!(list.arena_len(), 0);
}

#[test]
fn list_holds_values_that_are_not_copy() {
    let mut list: List<String> = List::new();
    list.push_back("b".to_string());
    list.push_front("a".to_string());
    let slots = list.slots();
    assert_eq!(list.get(slots[1]), "b");
    list.move_to_front(slots[1]);
    assert_eq!(list.iter(), vec!["b".to_string(), "a".to_string()]);
    assert_eq!(list.pop_back(), Some("a".to_string()));
    assert_eq!(list.remove(slots[1]), "b".to_string());
    assert!(list.is_empty());
}
