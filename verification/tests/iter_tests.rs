use periodic_table::{periodic_table, Element};

#[test]
fn forward_iteration_is_ascending_and_complete() {
    let mut it = periodic_table();
    let mut seen: Vec<u8> = Vec::new();
    while let Some(e) = it.next() {
        seen.push(e.get_id());
    }
    assert_eq!(seen.len(), 118);
    for (k, id) in seen.iter().enumerate() {
        assert_eq!(*id as usize, k);
    }
    // exhausted for good
    assert!(it.next().is_none());
    assert_eq!(it.len(), 0);
}

#[test]
fn reverse_iteration_is_descending_and_complete() {
    let mut it = periodic_table();
    let mut seen: Vec<u8> = Vec::new();
    while let Some(e) = it.next_back() {
        seen.push(e.get_id());
    }
    assert_eq!(seen.len(), 118);
    assert_eq!(seen[0], 117);
    for (k, id) in seen.iter().enumerate() {
        assert_eq!(*id as usize, 117 - k);
    }
    assert!(it.next_back().is_none());
    assert_eq!(it.len(), 0);
}

#[test]
fn remaining_count_is_exact_from_either_end() {
    let mut it = periodic_table();
    assert_eq!(it.len(), 118);
    let mut expected = 118usize;
    loop {
        let from_front = expected % 2 == 0;
        let e = if from_front { it.next() } else { it.next_back() };
        if expected == 0 {
            assert!(e.is_none());
            break;
        }
        assert!(e.is_some());
        expected -= 1;
        assert_eq!(it.len(), expected);
    }
    assert_eq!(it.len(), 0);
    assert!(it.next().is_none());
    assert!(it.next_back().is_none());
}

#[test]
fn cursors_meet_in_the_middle() {
    let mut it = periodic_table();
    let mut front: Vec<u8> = Vec::new();
    let mut back: Vec<u8> = Vec::new();
    loop {
        match it.next() {
            Some(e) => front.push(e.get_id()),
            None => break,
        }
        match it.next_back() {
            Some(e) => back.push(e.get_id()),
            None => break,
        }
    }
    assert_eq!(front.len(), 59);
    assert_eq!(back.len(), 59);
    assert_eq!(*front.last().unwrap(), 58);
    assert_eq!(*back.last().unwrap(), 59);
    let mut all: Vec<u8> = front.clone();
    let mut back_rev = back.clone();
    back_rev.reverse();
    all.extend(back_rev);
    assert_eq!(all.len(), 118);
    for (k, id) in all.iter().enumerate() {
        assert_eq!(*id as usize, k);
    }
}

#[test]
fn iteration_is_restartable() {
    let mut a = periodic_table();
    let _ = a.next();
    let _ = a.next();
    let mut b = periodic_table();
    assert_eq!(b.len(), 118);
    assert_eq!(b.next().unwrap().get_id(), 0);
    assert_eq!(Element::from_id(0).unwrap().get_id(), 0);
}
