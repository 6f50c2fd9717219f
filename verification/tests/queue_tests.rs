use mos::queue::IndexLink;

fn list_over(n: usize) -> IndexLink {
    let mut l = IndexLink::new();
    l.init(n);
    l
}

fn walk(l: &IndexLink) -> Vec<usize> {
    let mut it = l.iter();
    let mut out = Vec::new();
    while let Some(x) = it.next() {
        out.push(x);
    }
    out
}

#[test]
fn fresh_list_is_empty() {
    let l = list_over(10);
    assert!(l.is_empty());
    assert_eq!(l.len(), 0);
    assert_eq!(l.first(), None);
    assert_eq!(l.to_vec(), Vec::<usize>::new());
    assert_eq!(walk(&l), Vec::<usize>::new());
}

#[test]
fn physical_memory_manage_check() {
    let mut l = list_over(16);
    for i in (0..10).rev() {
        l.insert_head(i);
    }
    assert_eq!(l.to_vec(), vec![0, 1, 2, 3, 4, 5, 6, 7, 8, 9]);
    l.insert_after(4, 10);
    assert_eq!(walk(&l), vec![0, 1, 2, 3, 4, 10, 5, 6, 7, 8, 9]);
    assert_eq!(l.len(), 11);
}

#[test]
fn physical_memory_manage_strong_check() {
    let mut l = list_over(20);
    for i in (5..15).rev() {
        l.insert_head(i);
    }
    for i in 0..5 {
        l.insert_head(i);
    }
    assert_eq!(l.to_vec(), vec![4, 3, 2, 1, 0, 5, 6, 7, 8, 9, 10, 11, 12, 13, 14]);
    l.insert_after(4, 15);
    l.insert_after(4, 16);
    assert_eq!(l.to_vec(), vec![4, 16, 15, 3, 2, 1, 0, 5, 6, 7, 8, 9, 10, 11, 12, 13, 14]);
}

#[test]
fn insert_before_and_tail() {
    let mut l = list_over(8);
    l.insert_tail(3);
    l.insert_tail(5);
    l.insert_before(5, 1);
    l.insert_before(3, 7);
    assert_eq!(l.to_vec(), vec![7, 3, 1, 5]);
    assert_eq!(l.first(), Some(7));
    assert!(!l.is_empty());
}

#[test]
fn remove_head_middle_and_tail() {
    let mut l = list_over(8);
    for i in 0..6 {
        l.insert_tail(i);
    }
    l.remove(0);
    assert_eq!(l.to_vec(), vec![1, 2, 3, 4, 5]);
    l.remove(3);
    assert_eq!(l.to_vec(), vec![1, 2, 4, 5]);
    l.remove(5);
    assert_eq!(l.to_vec(), vec![1, 2, 4]);
    assert_eq!(l.len(), 3);
    l.insert_tail(3);
    l.insert_head(5);
    assert_eq!(walk(&l), vec![5, 1, 2, 4, 3]);
    l.remove(5);
    l.remove(1);
    l.remove(2);
    l.remove(4);
    l.remove(3);
    assert!(l.is_empty());
    assert_eq!(l.first(), None);
}

#[test]
fn size_of_the_link_arrays() {
    assert_eq!(IndexLink::get_size_for(0), 32);
    assert_eq!(IndexLink::get_size_for(1024), 16416);
}

#[test]
fn membership_follows_insertions_and_removals() {
    let mut l = list_over(6);
    for e in 0..6 {
        assert!(!l.holds(e));
    }
    l.insert_tail(3);
    l.insert_head(5);
    l.insert_tail(0);
    assert!(l.holds(3) && l.holds(5) && l.holds(0));
    assert!(!l.holds(1) && !l.holds(2) && !l.holds(4));
    l.remove(5);
    assert!(!l.holds(5));
    assert!(l.holds(3) && l.holds(0));
    l.remove(0);
    l.remove(3);
    for e in 0..6 {
        assert!(!l.holds(e));
    }
}
