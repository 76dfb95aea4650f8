use pulsar::dev_cache;
use pulsar::dev_cache::{Admission, DeviceSlabCache, SLAB_SLACK, TripleAdmission};
use pulsar::ensure;
use pulsar::ensure::{Act, Event, Phase};
use pulsar::store;
use pulsar::store::{Ranked, Read, StreamingStore, EVICT_SAMPLE};

fn pool(slots: usize) -> DeviceSlabCache {
    DeviceSlabCache::new(slots * 100, 100)
}

fn let_in(c: &mut DeviceSlabCache, off: u64, touches: u64) {
    for _ in 0..touches {
        c.bump(off, 100);
    }
    assert!(matches!(c.maybe_insert(off, &Vec::new()), Admission::Admitted(_)));
}

#[test]
fn pool_is_sliced_into_slots() {
    let c = pool(3);
    assert_eq!(c.meta.len(), 3);
    assert_eq!(c.pool_bytes(), 300 + SLAB_SLACK);
    assert_eq!(c.slot_base(2), 200);
    assert_eq!(DeviceSlabCache::new(10, 100).meta.len(), 1);
    assert_eq!(DeviceSlabCache::new(399, 100).meta.len(), 3);
}

#[test]
fn hits_and_misses_are_counted() {
    let mut c = pool(2);
    assert_eq!(c.get(7, 100), None);
    assert_eq!(c.maybe_insert(7, &Vec::new()), Admission::Admitted(1));
    assert_eq!(c.meta[1].freq, 1);
    assert_eq!(c.get(7, 100), Some(1));
    assert_eq!((c.hits, c.misses), (1, 1));
    assert_eq!(c.heat(7), 2);
    assert!(c.peek(8).is_none());
    assert_eq!(c.maybe_insert(7, &Vec::new()), Admission::Resident(1));
}

#[test]
fn colder_slab_gives_way_to_hotter() {
    let mut c = pool(2);
    let_in(&mut c, 1, 5);
    let_in(&mut c, 2, 2);
    c.bump(3, 100);
    assert!(matches!(c.maybe_insert(3, &Vec::new()), Admission::Declined));
    c.bump(3, 100);
    assert!(matches!(c.maybe_insert(3, &Vec::new()), Admission::Declined));
    c.bump(3, 100);
    let two = c.peek(2).unwrap();
    assert_eq!(c.maybe_insert(3, &Vec::new()), Admission::Admitted(two));
    assert_eq!(c.peek(3), Some(two));
    assert_eq!(c.meta[two as usize].freq, 3);
    assert_eq!(c.ungrouped, 2);
    assert!(c.peek(2).is_none());
    assert!(c.peek(1).is_some());
}

#[test]
fn slab_in_use_is_not_evicted() {
    let mut c = pool(1);
    let_in(&mut c, 1, 1);
    for _ in 0..9 {
        c.bump(2, 100);
    }
    assert!(matches!(c.maybe_insert(2, &vec![1]), Admission::Declined));
    assert_eq!(c.maybe_insert(2, &Vec::new()), Admission::Admitted(0));
    assert_eq!(c.meta[0].freq, 9);
}

fn admit_triple(c: &mut DeviceSlabCache, offs: [u64; 3]) -> bool {
    match c.maybe_insert_triple(offs, &Vec::new()) {
        TripleAdmission::Admitted { slots, .. } => {
            for i in 0..3 {
                assert_eq!(c.peek(offs[i]), Some(slots[i]));
            }
            true
        }
        TripleAdmission::Declined => false,
    }
}

#[test]
fn group_is_evicted_whole() {
    let mut c = pool(3);
    for o in [10, 11, 12] {
        c.bump(o, 100);
    }
    assert!(admit_triple(&mut c, [10, 11, 12]));
    assert_eq!(c.ungrouped, 0);
    for _ in 0..5 {
        for o in [20, 21, 22] {
            c.bump(o, 100);
        }
    }
    assert!(admit_triple(&mut c, [20, 21, 22]));
    for o in [10, 11, 12] {
        assert!(c.peek(o).is_none());
    }
    for o in [20, 21, 22] {
        assert!(c.peek(o).is_some());
    }
    assert_eq!(c.map.len(), 3);
    let again = c.maybe_insert_triple([20, 21, 22], &Vec::new());
    let TripleAdmission::Admitted { slots, fresh } = again else { panic!("no longer there") };
    assert_eq!(fresh, [false; 3]);
    assert_eq!(Some(slots[2]), c.peek(22));
}

#[test]
fn declined_triple_changes_nothing() {
    let mut c = pool(4);
    let_in(&mut c, 1, 1);
    let_in(&mut c, 2, 2);
    let_in(&mut c, 3, 9);
    let_in(&mut c, 4, 9);
    for _ in 0..2 {
        for o in [10, 11, 12] {
            c.bump(o, 100);
        }
    }
    // two slabs are colder than the triple, but three slots are needed
    let (meta, free, group) = (c.meta.clone(), c.free_list.clone(), c.next_group);
    assert_eq!(c.maybe_insert_triple([10, 11, 12], &Vec::new()), TripleAdmission::Declined);
    assert_eq!((&c.meta, &c.free_list, c.next_group), (&meta, &free, group));
    assert_eq!(c.ungrouped, 4);
    assert!(c.peek(1).is_some() && c.peek(2).is_some());
}

#[test]
fn parts_of_a_triple_are_spared() {
    let mut c = pool(3);
    let_in(&mut c, 10, 1);
    let_in(&mut c, 2, 2);
    let_in(&mut c, 3, 2);
    let first = c.peek(10).unwrap();
    for o in [11, 12] {
        for _ in 0..5 {
            c.bump(o, 100);
        }
    }
    let r = c.maybe_insert_triple([10, 11, 12], &Vec::new());
    let TripleAdmission::Admitted { slots, fresh } = r else { panic!("declined") };
    assert_eq!(fresh, [false, true, true]);
    assert_eq!(slots[0], first);
    for i in 0..3 {
        assert_eq!(c.peek([10, 11, 12][i]), Some(slots[i]));
        assert!((0..i).all(|j| slots[j] != slots[i]));
    }
    assert!(c.peek(2).is_none() && c.peek(3).is_none());
    assert_eq!((c.ungrouped, c.map.len(), c.free_list.len()), (1, 3, 0));
}

#[test]
fn group_with_a_slab_in_use_stays() {
    let mut c = pool(3);
    assert!(admit_triple(&mut c, [10, 11, 12]));
    for o in [20, 21, 22] {
        c.bump(o, 100);
    }
    assert_eq!(c.maybe_insert_triple([20, 21, 22], &vec![11]), TripleAdmission::Declined);
    assert!(c.peek(10).is_some());
    assert!(admit_triple(&mut c, [20, 21, 22]));
}

#[test]
fn repeated_part_takes_one_slot() {
    let mut c = pool(3);
    let r = c.maybe_insert_triple([5, 5, 6], &Vec::new());
    let TripleAdmission::Admitted { slots, fresh } = r else { panic!("declined") };
    assert_eq!(fresh, [true, false, true]);
    assert_eq!(slots[0], slots[1]);
    assert_eq!((c.map.len(), c.free_list.len()), (2, 1));
    assert_eq!(c.next_group, 2);
}

#[test]
fn pool_of_groups_takes_no_single() {
    let mut c = pool(3);
    assert!(admit_triple(&mut c, [10, 11, 12]));
    for _ in 0..50 {
        c.bump(99, 100);
    }
    assert!(matches!(c.maybe_insert(99, &Vec::new()), Admission::Declined));
}

#[test]
fn freeing_a_group_member_frees_all() {
    let mut c = pool(4);
    let_in(&mut c, 1, 1);
    assert!(admit_triple(&mut c, [10, 11, 12]));
    let slot = c.peek(11).unwrap();
    c.free_group_of(slot);
    assert_eq!(c.map.len(), 1);
    assert_eq!(c.free_list.len(), 3);
    let one = c.peek(1).unwrap();
    c.free_slot(one);
    assert_eq!(c.free_list.len(), 4);
    assert_eq!(c.ungrouped, 0);
}

#[test]
fn lists_hold_what_they_hold() {
    assert!(dev_cache::holds(&vec![1, 2], 2));
    assert!(!dev_cache::holds(&vec![1, 2], 3));
}

#[test]
fn victim_is_the_coldest_then_oldest() {
    let walk = vec![
        Ranked { key: 1, freq: 3, tick: 1 },
        Ranked { key: 2, freq: 1, tick: 5 },
        Ranked { key: 3, freq: 1, tick: 2 },
    ];
    assert_eq!(store::pick_victim(&walk, &Vec::new(), &Vec::new()), Some(3));
    let wanted = vec![Read { offset: 3, len: 1 }];
    assert_eq!(store::pick_victim(&walk, &wanted, &Vec::new()), Some(2));
    assert_eq!(store::pick_victim(&walk, &wanted, &vec![1, 2]), None);
    assert_eq!(EVICT_SAMPLE, 64);
}

#[test]
fn store_evicts_the_coldest() {
    let mut s: StreamingStore<u8> = StreamingStore::open(10);
    s.begin_resolve();
    assert!(!s.want(1));
    s.keep(1, 11, 4);
    assert!(!s.want(2));
    s.keep(2, 22, 4);
    assert!(s.want(2));
    s.make_room(4, &vec![Read { offset: 3, len: 4 }]);
    assert!(!s.contains(1));
    assert!(s.contains(2));
    assert_eq!(s.used, 4);
    assert_eq!((s.hits, s.misses), (1, 2));
    s.reset_stats();
    assert_eq!((s.hits, s.misses), (0, 0));
}

#[test]
fn pinned_and_wanted_slabs_stay() {
    let mut s: StreamingStore<u8> = StreamingStore::open(4);
    s.keep(1, 1, 4);
    s.pin(&vec![7]);
    s.pin(&vec![1]);
    assert_eq!(s.pinned, vec![7, 1]);
    s.make_room(4, &Vec::new());
    assert!(s.contains(1));
    s.unpin();
    assert!(s.pinned.is_empty());
    s.make_room(4, &vec![Read { offset: 1, len: 4 }]);
    assert!(s.contains(1));
    s.make_room(4, &Vec::new());
    assert!(!s.contains(1));
}

#[test]
fn absorbed_slab_is_held_once() {
    let mut s: StreamingStore<u8> = StreamingStore::open(8);
    s.absorb(5, 50, 4);
    s.absorb(5, 51, 4);
    assert_eq!(s.payload(5), Some(&50));
    assert_eq!(s.used, 4);
    assert!(s.peek_hit(5));
    assert!(!s.peek_hit(6));
    assert_eq!((s.hits, s.misses), (1, 0));
    s.absorb(6, 60, 8);
    assert!(!s.contains(5));
    assert_eq!(s.used, 8);
    assert_eq!(s.walk().len(), 1);
}

#[test]
fn bytes_of_reads_add_up() {
    let reads = vec![Read { offset: 0, len: 3 }, Read { offset: 9, len: 4 }];
    assert_eq!(store::read_bytes(&reads), 7);
    assert!(store::wants(&reads, 9));
    assert!(!store::wants(&reads, 3));
}

fn read(offset: u64) -> Read {
    Read { offset, len: 4 }
}

fn landed(i: usize, slab: u8, placed: bool) -> Event<u8> {
    Event::Landed { i, slab, bytes: 4, placed }
}

#[test]
fn cached_slabs_come_first_and_the_rest_is_fetched() {
    let mut s: StreamingStore<u8> = StreamingStore::open(12);
    s.keep(1, 11, 4);
    s.keep(9, 99, 4);
    let wants = vec![read(2), read(1), read(3)];
    assert!(ensure::counts_ok(&s, &wants));
    let (mut e, act) = ensure::begin(&mut s, wants);
    assert_eq!((act, s.tick), (Act::Place(1), 1));
    assert_eq!(ensure::step(&mut s, &mut e, Event::Placed(true)), Act::Fetch);
    assert_eq!(e.missing, vec![read(2), read(3)]);
    assert_eq!((s.hits, s.misses), (1, 2));
    assert!(!s.contains(9) && s.contains(1));
    assert_eq!(ensure::step(&mut s, &mut e, landed(1, 33, true)), Act::Wait);
    assert_eq!(ensure::step(&mut s, &mut e, landed(0, 22, true)), Act::Wait);
    assert_eq!(ensure::step(&mut s, &mut e, Event::Fetched), Act::Finish(true));
    assert_eq!((s.payload(2), s.payload(3), s.used), (Some(&22), Some(&33), 12));
    let (e, act) = ensure::begin(&mut s, Vec::new());
    assert_eq!((act, e.phase), (Act::Finish(true), Phase::Over));
}

#[test]
fn failed_placing_ends_the_resolve() {
    let mut s: StreamingStore<u8> = StreamingStore::open(100);
    s.keep(1, 11, 4);
    let (mut e, act) = ensure::begin(&mut s, vec![read(1), read(2)]);
    assert_eq!(act, Act::Place(1));
    assert_eq!(ensure::step(&mut s, &mut e, Event::Placed(false)), Act::Finish(false));
    assert_eq!((s.misses, e.phase), (0, Phase::Over));
    let (mut e, act) = ensure::begin(&mut s, vec![read(2), read(3)]);
    assert_eq!(act, Act::Fetch);
    ensure::step(&mut s, &mut e, landed(0, 22, false));
    assert!(e.failed);
    ensure::step(&mut s, &mut e, landed(1, 33, true));
    assert_eq!(ensure::step(&mut s, &mut e, Event::Fetched), Act::Finish(false));
    assert!(s.contains(2) && s.contains(3));
    s.hits = u64::MAX;
    assert!(!ensure::counts_ok(&s, &vec![read(2)]));
}
