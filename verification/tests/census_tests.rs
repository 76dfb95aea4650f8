use pulsar::census;
use pulsar::census::CensusEntry;
use std::collections::HashMap;

fn e(offset: u64, len: u64, count: u64) -> CensusEntry {
    CensusEntry { offset, len, count }
}

fn plain(es: &[CensusEntry]) -> Vec<(u64, u64, u64)> {
    es.iter().map(|x| (x.offset, x.len, x.count)).collect()
}

#[test]
fn census_file_round_trip() {
    let es = vec![e(1, 2, 3), e(u64::MAX, 5, 6)];
    let b = census::write_census(&es);
    assert_eq!(b.len(), 48);
    assert_eq!(&b[0..8], &[1, 0, 0, 0, 0, 0, 0, 0]);
    assert_eq!(&b[8..9], &[2]);
    assert_eq!(&b[16..17], &[3]);
    assert_eq!(plain(&census::read_census(&b)), vec![(1, 2, 3), (u64::MAX, 5, 6)]);
}

#[test]
fn broken_tail_is_ignored() {
    let mut b = census::write_census(&vec![e(1, 2, 3)]);
    b.extend_from_slice(&[7; 23]);
    assert_eq!(plain(&census::read_census(&b)), vec![(1, 2, 3)]);
    assert_eq!(census::read_census(&vec![1, 2, 3]).len(), 0);
}

#[test]
fn hottest_come_first() {
    let out = census::sort_hottest(&vec![e(1, 1, 5), e(2, 1, 9), e(3, 1, 7)]);
    assert_eq!(plain(&out), vec![(2, 1, 9), (3, 1, 7), (1, 1, 5)]);
}

#[test]
fn merge_adds_what_is_new_since_the_seed() {
    let was = vec![e(1, 10, 100), e(2, 10, 50)];
    let mut touch = HashMap::new();
    touch.insert(1, (30u64, 10u64));
    touch.insert(3, (4, 10));
    let mut seeds = HashMap::new();
    seeds.insert(1, 25u64);
    let out = census::merge_census(&was, &touch, &seeds);
    let m = census::census_map(&out);
    assert_eq!(m.len(), 3);
    assert_eq!(m[&2].0, 50);
    assert_eq!(m[&3].0, 4);
    assert_eq!(m[&1].0, 100);
    for w in out.windows(2) {
        assert!(w[0].count >= w[1].count);
    }
}

#[test]
fn saving_an_untouched_seed_changes_nothing() {
    let was = vec![e(1, 10, 100)];
    let mut touch = HashMap::new();
    touch.insert(1, (25u64, 10u64));
    let mut seeds = HashMap::new();
    seeds.insert(1, 25u64);
    let once = census::merge_census(&was, &touch, &seeds);
    assert_eq!(plain(&once), vec![(1, 10, 100)]);
    assert_eq!(census::entries_of(&census::census_map(&once)).len(), 1);
}
