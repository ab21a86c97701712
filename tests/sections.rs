use memflow_reclass::sections::{coalesce, sweep_sections, HIGH_HALF_START};

#[test]
fn merges_adjacent_entries() {
    let entries = vec![(0x1000u64, 0x1000u64), (0x2000, 0x1000), (0x5000, 0x2000)];
    assert_eq!(coalesce(&entries), vec![(0x1000, 0x2000), (0x5000, 0x2000)]);
}

#[test]
fn sorts_before_merging() {
    let entries = vec![(0x5000u64, 0x2000u64), (0x2000, 0x1000), (0x1000, 0x1000), (0x7000, 0x1000)];
    assert_eq!(coalesce(&entries), vec![(0x1000, 0x2000), (0x5000, 0x3000)]);
}

#[test]
fn empty_page_map_gives_no_section() {
    assert_eq!(coalesce(&Vec::new()), Vec::<(u64, u64)>::new());
}

#[test]
fn trailing_section_is_reported() {
    let entries = vec![(0x1000u64, 0x1000u64)];
    assert_eq!(coalesce(&entries), vec![(0x1000, 0x1000)]);
}

#[test]
fn high_half_entries_are_dropped_even_when_adjacent() {
    let below = HIGH_HALF_START - 0x1000;
    let entries = vec![(below, 0x1000u64), (HIGH_HALF_START, 0x1000), (HIGH_HALF_START + 0x1000, 0x1000)];
    assert_eq!(coalesce(&entries), vec![(below, 0x1000)]);
}

#[test]
fn only_high_half_entries_give_no_section() {
    let entries = vec![(HIGH_HALF_START, 0x1000u64), (u64::MAX - 0xfff, 0x1000)];
    assert_eq!(coalesce(&entries), Vec::<(u64, u64)>::new());
}

#[test]
fn gap_splits_sections() {
    let entries = vec![(0x1000u64, 0x1000u64), (0x3000, 0x1000), (0x4000, 0x1000)];
    assert_eq!(coalesce(&entries), vec![(0x1000, 0x1000), (0x3000, 0x2000)]);
}

#[test]
fn entry_at_address_zero_extends_initial_run() {
    let entries = vec![(0u64, 0x1000u64), (0x1000, 0x1000)];
    assert_eq!(coalesce(&entries), vec![(0, 0x2000)]);
}

#[test]
fn zero_sized_entries_cover_nothing() {
    let entries = vec![(0x1000u64, 0u64), (0x3000, 0)];
    assert_eq!(coalesce(&entries), Vec::<(u64, u64)>::new());
}

#[test]
fn wrapping_sizes_do_not_panic() {
    let entries = vec![(0x1000u64, u64::MAX), (0x1000u64.wrapping_add(u64::MAX), 5)];
    let sweep = sweep_sections(&entries);
    assert_eq!(sweep, vec![(0x1000, 4)]);
}

#[test]
fn sweep_keeps_the_given_order() {
    let entries = vec![(0x3000u64, 0x1000u64), (0x1000, 0x1000), (0x2000, 0x1000)];
    assert_eq!(sweep_sections(&entries), vec![(0x3000, 0x1000), (0x1000, 0x2000)]);
}

#[test]
fn sections_are_disjoint_and_cover_the_entries() {
    let entries = vec![
        (0x9000u64, 0x1000u64),
        (0x1000, 0x1000),
        (0x4000, 0x2000),
        (0x2000, 0x1000),
        (0x6000, 0x1000),
        (HIGH_HALF_START, 0x1000),
    ];
    let sections = coalesce(&entries);
    assert_eq!(sections, vec![(0x1000, 0x2000), (0x4000, 0x3000), (0x9000, 0x1000)]);
    for w in sections.windows(2) {
        assert!(w[0].0 + w[0].1 <= w[1].0);
    }
    let covered: u64 = sections.iter().map(|s| s.1).sum();
    let user: u64 = entries.iter().filter(|e| e.0 < HIGH_HALF_START).map(|e| e.1).sum();
    assert_eq!(covered, user);
}
