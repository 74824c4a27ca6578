use page_scan::depth::{is_anomalous_mask, mask_child_count, page_depth, DepthScan, TrieNodeEntry};

fn node(depth: usize, state_mask: u16) -> TrieNodeEntry {
    TrieNodeEntry { nibbles: vec![0; depth], state_mask }
}

#[test]
fn one_child_is_flagged() {
    assert!(is_anomalous_mask(0b1));
    assert!(is_anomalous_mask(1 << 15));
}

#[test]
fn two_children_are_not_flagged() {
    assert!(!is_anomalous_mask(0b11));
    assert!(!is_anomalous_mask(0b1000_0000_0000_0001));
    assert!(!is_anomalous_mask(0xFFFF));
}

#[test]
fn no_child_is_flagged() {
    assert!(is_anomalous_mask(0));
}

#[test]
fn child_counts() {
    assert_eq!(mask_child_count(0), 0);
    assert_eq!(mask_child_count(0xFFFF), 16);
    assert_eq!(mask_child_count(0b1010_0000_0101_0000), 4);
}

#[test]
fn page_depth_and_flags() {
    let page = vec![node(3, 0b11), node(7, 0b1), node(5, 0), node(2, 0xF0)];
    let d = page_depth(&page);
    assert_eq!(d.max_depth, 7);
    assert_eq!(d.flagged, vec![1, 2]);
}

#[test]
fn depth_of_empty_page() {
    let d = page_depth(&vec![]);
    assert_eq!(d.max_depth, 0);
    assert!(d.flagged.is_empty());
}

#[test]
fn global_depth_over_pages() {
    let mut scan = DepthScan::new();
    let first = scan.absorb(&vec![node(4, 3), node(9, 3)]);
    assert_eq!(first.max_depth, 9);
    let second = scan.absorb(&vec![node(6, 3)]);
    assert_eq!(second.max_depth, 6);
    assert_eq!(scan.global_max, 9);
    scan.absorb(&vec![node(12, 1)]);
    assert_eq!(scan.global_max, 12);
}
