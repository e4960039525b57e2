use pdflib::pages::PageIndex;

#[test]
fn ordinals_count_from_one_in_walking_order() {
    let pages = vec![(30, 0), (10, 0), (20, 0)];
    let index = PageIndex::new(&pages);
    assert_eq!(index.get((30, 0)), Some(1));
    assert_eq!(index.get((10, 0)), Some(2));
    assert_eq!(index.get((20, 0)), Some(3));
    assert_eq!(index.get((20, 1)), None);
    assert_eq!(index.get((40, 0)), None);
    assert_eq!(index.ordinals.len(), 3);
}

#[test]
fn ordinals_are_a_bijection_onto_one_to_n() {
    let pages: Vec<(u32, u16)> = (0..50u32).map(|n| (1000 - 7 * n, 0)).collect();
    let index = PageIndex::new(&pages);
    let mut seen = vec![false; pages.len()];
    for (i, page) in pages.iter().enumerate() {
        let ordinal = index.get(*page).unwrap();
        assert_eq!(ordinal as usize, i + 1);
        assert!(!seen[ordinal as usize - 1]);
        seen[ordinal as usize - 1] = true;
    }
    assert!(seen.iter().all(|s| *s));
    assert_eq!(index.ordinals.len(), pages.len());
}

#[test]
fn no_pages_no_ordinals() {
    let index = PageIndex::new(&vec![]);
    assert_eq!(index.get((1, 0)), None);
    assert!(index.ordinals.is_empty());
}

#[test]
fn a_page_walked_twice_keeps_its_last_ordinal() {
    let index = PageIndex::new(&vec![(1, 0), (2, 0), (1, 0)]);
    assert_eq!(index.get((1, 0)), Some(3));
    assert_eq!(index.get((2, 0)), Some(2));
}
