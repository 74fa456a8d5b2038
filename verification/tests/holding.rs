use memhold::mem::{
    current_state, set_memory, set_memory_with, HoldOutcome, MemState, DEFAULT_BYTES, MIB,
};
use memhold::pages::{fill, touch_pages};
use memhold::source::{reserve, Source};

fn up_to(limit: usize) -> impl Fn(usize) -> Option<Vec<u8>> {
    move |n| if n <= limit { Some(Vec::new()) } else { None }
}

#[test]
fn nothing_is_held_at_first() {
    assert_eq!(current_state(&MemState::new()), (1536 * 1024 * 1024, 0));
    assert_eq!(DEFAULT_BYTES, 1536 * 1024 * 1024);
}

#[test]
fn holds_what_is_asked_for() {
    let mut state = MemState::new();
    let outcome = set_memory(&mut state, 5000);
    assert_eq!(
        outcome,
        HoldOutcome { holding: true, degraded: false, requested: 5000, held: 5000, released: false }
    );
    assert_eq!(current_state(&state), (5000, 5000));
}

#[test]
fn a_new_size_replaces_the_old_one() {
    let mut state = MemState::new();
    set_memory(&mut state, 3 * MIB as u64);
    let outcome = set_memory(&mut state, MIB as u64);
    assert_eq!(
        outcome,
        HoldOutcome { holding: true, degraded: false, requested: MIB as u64, held: MIB, released: true }
    );
    assert_eq!(current_state(&state), (MIB as u64, MIB));
}

#[test]
fn repeating_a_size_keeps_it() {
    let mut state = MemState::new();
    let first = set_memory(&mut state, 70_000);
    let second = set_memory(&mut state, 70_000);
    assert_eq!(second, HoldOutcome { released: true, ..first });
    assert_eq!(current_state(&state), (70_000, 70_000));
}

#[test]
fn releasing_twice_releases_once() {
    let mut state = MemState::new();
    set_memory(&mut state, 4096);
    let none = HoldOutcome { holding: false, degraded: false, requested: 0, held: 0, released: true };
    assert_eq!(set_memory(&mut state, 0), none);
    assert_eq!(set_memory(&mut state, 0), HoldOutcome { released: false, ..none });
    assert_eq!(current_state(&state), (0, 0));
}

#[test]
fn a_refusal_halves_the_size() {
    let mut state = MemState::new();
    let outcome = set_memory_with(&mut state, 8 * MIB as u64, &mut Source::new(up_to(3_000_000)));
    assert_eq!(
        outcome,
        HoldOutcome {
            holding: true,
            degraded: true,
            requested: 8 * MIB as u64,
            held: 2 * MIB,
            released: false,
        }
    );
    assert_eq!(current_state(&state), (8 * MIB as u64, 2 * MIB));
}

#[test]
fn halving_rounds_down() {
    let mut state = MemState::new();
    let outcome = set_memory_with(&mut state, 4_194_305, &mut Source::new(up_to(2_097_152)));
    assert_eq!((outcome.held, outcome.degraded), (2_097_152, true));
}

#[test]
fn gives_up_below_a_mebibyte() {
    let mut state = MemState::new();
    set_memory(&mut state, 100);
    let asked = std::cell::RefCell::new(Vec::new());
    let mut source = Source::new(|n| {
        asked.borrow_mut().push(n);
        None
    });
    let outcome = set_memory_with(&mut state, 6 * 1024 * MIB as u64, &mut source);
    drop(source);
    assert_eq!(
        outcome,
        HoldOutcome {
            holding: false,
            degraded: true,
            requested: 6 * 1024 * MIB as u64,
            held: 0,
            released: true,
        }
    );
    assert_eq!(current_state(&state), (6 * 1024 * MIB as u64, 0));
    let sizes = asked.into_inner();
    assert_eq!(sizes.len(), 14);
    assert_eq!(sizes[..4], [6144 * MIB, 3072 * MIB, 1536 * MIB, 768 * MIB]);
    assert_eq!(sizes[12..], [MIB + MIB / 2, MIB / 4 * 3]);
}

#[test]
fn a_mebibyte_is_tried_once() {
    let mut state = MemState::new();
    let count = std::cell::Cell::new(0);
    let mut source = Source::new(|_| {
        count.set(count.get() + 1);
        None
    });
    let outcome = set_memory_with(&mut state, MIB as u64, &mut source);
    assert_eq!((outcome.holding, outcome.degraded, count.get()), (false, true, 1));
}

#[test]
fn half_a_mebibyte_is_the_least_that_halving_leaves() {
    let mut state = MemState::new();
    let outcome = set_memory_with(&mut state, MIB as u64 + 1, &mut Source::new(up_to(MIB)));
    assert_eq!(outcome.held, MIB / 2);
}

#[test]
fn releasing_asks_for_nothing() {
    let mut state = MemState::new();
    let outcome = set_memory_with(&mut state, 0, &mut Source::new(|_| panic!("asked")));
    assert!(!outcome.holding && !outcome.degraded);
}

#[test]
fn reserve_gives_room_and_refuses_too_much() {
    let room = reserve(10_000).unwrap();
    assert!(room.is_empty() && room.capacity() >= 10_000);
    assert!(reserve(usize::MAX).is_none());
    assert!(reserve(isize::MAX as usize + 1).is_none());
}

#[test]
fn touching_writes_each_page_and_the_end() {
    let mut buffer = vec![7u8; 4096 * 2 + 10];
    touch_pages(&mut buffer);
    let mut expected = vec![7u8; 4096 * 2 + 10];
    expected[0] = 0;
    expected[4096] = 0;
    expected[8192] = 0;
    expected[8201] = 1;
    assert_eq!(buffer, expected);
}

#[test]
fn touching_handles_the_small_lengths() {
    let mut empty: Vec<u8> = vec![];
    touch_pages(&mut empty);
    assert!(empty.is_empty());
    let mut one = vec![9u8];
    touch_pages(&mut one);
    assert_eq!(one, vec![1]);
    let mut page_and_one = vec![9u8; 4097];
    touch_pages(&mut page_and_one);
    assert_eq!((page_and_one[0], page_and_one[1], page_and_one[4096]), (0, 9, 1));
}

#[test]
fn filling_writes_every_byte_in_the_same_room() {
    let mut room = Vec::with_capacity(20_000);
    room.push(77u8);
    let place = room.as_ptr();
    let buffer = fill(room, 10_000);
    let mut expected = vec![0u8; 10_000];
    expected[9_999] = 1;
    assert_eq!(buffer, expected);
    assert_eq!(buffer.as_ptr(), place);
    assert!(fill(vec![5, 6], 0).is_empty());
}

#[test]
fn equal_answers_give_equal_sizes() {
    let mut state = MemState::new();
    let first = set_memory_with(&mut state, 5_000_001, &mut Source::new(up_to(1_300_000)));
    let second = set_memory_with(&mut state, 5_000_001, &mut Source::new(up_to(1_300_000)));
    assert_eq!((first.held, first.degraded), (1_250_000, true));
    assert_eq!((second.held, second.degraded, second.released), (1_250_000, true, true));
}

#[test]
fn the_largest_size_is_tried_forty_five_times() {
    let mut state = MemState::new();
    let count = std::cell::Cell::new(0);
    let mut source = Source::new(|_| {
        count.set(count.get() + 1);
        None
    });
    let outcome = set_memory_with(&mut state, u64::MAX, &mut source);
    assert_eq!((outcome.held, outcome.degraded, count.get()), (0, true, 45));
}

#[test]
fn a_source_hands_its_answers_on() {
    let mut source = Source::new(up_to(10));
    assert_eq!(source.ask(10), Some(vec![]));
    assert_eq!(source.ask(11), None);
}
