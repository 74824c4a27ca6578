use page_scan::paging::{page_ranges, split_pages, IndexedPager, PageBuffer, PageRange};

#[test]
fn indexed_pages_of_250_records() {
    let pages = page_ranges(250, 100);
    assert_eq!(
        pages,
        vec![
            PageRange { skip: 0, len: 100 },
            PageRange { skip: 100, len: 100 },
            PageRange { skip: 200, len: 100 },
        ]
    );
}

#[test]
fn indexed_pages_cover_every_record_once() {
    for total in 0..40u64 {
        for size in 1..12u64 {
            let pages = page_ranges(total, size);
            assert_eq!(pages.len() as u64, (total + size - 1) / size);
            let mut reached = 0;
            for (i, p) in pages.iter().enumerate() {
                assert_eq!(p.skip, i as u64 * size);
                assert_eq!(p.len, size);
                assert!(p.skip < total);
                reached += (p.skip + p.len).min(total) - p.skip;
            }
            assert_eq!(reached, total);
        }
    }
}

#[test]
fn indexed_pager_on_empty_table() {
    let mut pager = IndexedPager::new(0, 100);
    assert_eq!(pager.next_range(), None);
}

#[test]
fn indexed_pager_exact_multiple() {
    let mut pager = IndexedPager::new(200, 100);
    assert_eq!(pager.next_range(), Some(PageRange { skip: 0, len: 100 }));
    assert_eq!(pager.next_range(), Some(PageRange { skip: 100, len: 100 }));
    assert_eq!(pager.next_range(), None);
    assert_eq!(pager.next_range(), None);
}

#[test]
fn indexed_pager_near_the_largest_total() {
    let mut pager = IndexedPager::new(u64::MAX, u64::MAX - 1);
    assert_eq!(pager.next_range(), Some(PageRange { skip: 0, len: u64::MAX - 1 }));
    assert_eq!(pager.next_range(), Some(PageRange { skip: u64::MAX - 1, len: u64::MAX - 1 }));
    assert_eq!(pager.next_range(), None);
}

#[test]
fn indexed_pager_short_last_page() {
    let mut pager = IndexedPager::new(5, 2);
    assert_eq!(pager.next_range(), Some(PageRange { skip: 0, len: 2 }));
    assert_eq!(pager.next_range(), Some(PageRange { skip: 2, len: 2 }));
    assert_eq!(pager.next_range(), Some(PageRange { skip: 4, len: 2 }));
    assert_eq!(pager.next_range(), None);
}

#[test]
fn cursor_pages_of_250_records() {
    let records: Vec<u32> = (0..250).collect();
    let pages = split_pages(records, 100);
    let sizes: Vec<usize> = pages.iter().map(|p| p.len()).collect();
    assert_eq!(sizes, vec![100, 100, 50]);
}

#[test]
fn cursor_pages_keep_ascending_order() {
    let records: Vec<u32> = (0..37).collect();
    let pages = split_pages(records.clone(), 8);
    assert_eq!(pages.len(), 5);
    let flat: Vec<u32> = pages.into_iter().flatten().collect();
    assert_eq!(flat, records);
}

#[test]
fn cursor_pages_keep_descending_order() {
    let records: Vec<u32> = (0..37).rev().collect();
    let pages = split_pages(records.clone(), 8);
    assert_eq!(pages[0], vec![36, 35, 34, 33, 32, 31, 30, 29]);
    assert_eq!(pages[4], vec![4, 3, 2, 1, 0]);
    let flat: Vec<u32> = pages.into_iter().flatten().collect();
    assert_eq!(flat, records);
}

#[test]
fn cursor_pages_of_nothing() {
    let pages = split_pages(Vec::<u32>::new(), 3);
    assert!(pages.is_empty());
}

#[test]
fn buffer_hands_out_full_pages_and_the_rest() {
    let mut buf = PageBuffer::new(2);
    assert_eq!(buf.push(1), None);
    assert_eq!(buf.push(2), Some(vec![1, 2]));
    assert_eq!(buf.push(3), None);
    assert_eq!(buf.flush(), Some(vec![3]));
    assert_eq!(buf.flush(), None);
}

#[test]
fn buffer_of_page_size_one() {
    let mut buf = PageBuffer::new(1);
    assert_eq!(buf.push("a"), Some(vec!["a"]));
    assert_eq!(buf.push("b"), Some(vec!["b"]));
    assert_eq!(buf.flush(), None);
}
