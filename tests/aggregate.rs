use page_scan::aggregate::{max_by_category, CategoryMaxima};

const A: u8 = b'A';

#[test]
fn max_for_category_across_pages() {
    let mut m = CategoryMaxima::new();
    m.absorb(&vec![(A, 12)]);
    m.absorb(&vec![(A, 47)]);
    m.absorb(&vec![(A, 3)]);
    assert_eq!(m.get(A), Some(47));
    assert_eq!(m.get(b'B'), None);
}

#[test]
fn max_by_category_is_order_free() {
    let rows = vec![(1u8, 5usize), (2, 9), (1, 11), (3, 0), (2, 4), (1, 7)];
    let mut reversed = rows.clone();
    reversed.reverse();
    let mut rotated = rows.clone();
    rotated.rotate_left(2);
    let a = max_by_category(&rows);
    let b = max_by_category(&reversed);
    let c = max_by_category(&rotated);
    for cat in 0..=255u8 {
        assert_eq!(a.get(cat), b.get(cat));
        assert_eq!(a.get(cat), c.get(cat));
    }
    assert_eq!(a.get(1), Some(11));
    assert_eq!(a.get(2), Some(9));
    assert_eq!(a.get(3), Some(0));
    assert_eq!(a.get(4), None);
}

#[test]
fn record_keeps_the_larger_size() {
    let mut m = CategoryMaxima::new();
    m.record(0, 10);
    m.record(0, 10);
    m.record(0, 2);
    assert_eq!(m.get(0), Some(10));
    m.record(255, usize::MAX);
    assert_eq!(m.get(255), Some(usize::MAX));
}

#[test]
fn empty_page_changes_nothing() {
    let mut m = CategoryMaxima::new();
    m.absorb(&vec![]);
    assert_eq!(m.get(0), None);
}

#[test]
fn complete_mapping_in_category_order() {
    let m = max_by_category(&vec![(9u8, 1usize), (2, 30), (9, 4), (0, 0)]);
    assert_eq!(m.to_vec(), vec![(0, 0), (2, 30), (9, 4)]);
    assert!(CategoryMaxima::new().to_vec().is_empty());
}
