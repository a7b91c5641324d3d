use noise_maker::clock::AudioClock;
use noise_maker::ring::{BlockRing, Slot};

#[test]
fn ring_needs_a_block() {
    assert!(BlockRing::new(0).is_none());
    assert!(BlockRing::new(1).is_some());
}

#[test]
fn fresh_ring_is_all_free() {
    let ring = BlockRing::new(8).unwrap();
    assert_eq!(ring.block_count(), 8);
    assert_eq!(ring.free(), 8);
    assert_eq!(ring.cursor(), 0);
    assert_eq!(ring.queued(), 0);
    assert!(!ring.is_filling());
    assert_eq!(ring.current(), Slot { index: 0, reused: false });
}

#[test]
fn acquire_lowers_the_counter_by_one() {
    let mut ring = BlockRing::new(3).unwrap();
    assert_eq!(ring.try_acquire(), Some(Slot { index: 0, reused: false }));
    assert_eq!(ring.free(), 2);
    assert!(ring.is_filling());
    assert_eq!(ring.queued(), 0);
}

#[test]
fn second_acquire_without_submit_gives_nothing() {
    let mut ring = BlockRing::new(3).unwrap();
    assert!(ring.try_acquire().is_some());
    assert_eq!(ring.try_acquire(), None);
    assert_eq!(ring.free(), 2);
    assert_eq!(ring.cursor(), 0);
}

#[test]
fn submit_moves_the_cursor_round_the_ring() {
    let mut ring = BlockRing::new(3).unwrap();
    assert_eq!(ring.submit(), None);
    for lap in 0..3 {
        for index in 0..3usize {
            let slot = ring.try_acquire().unwrap();
            assert_eq!(slot, Slot { index, reused: lap > 0 });
            assert_eq!(ring.submit(), Some(index));
            assert_eq!(ring.cursor(), (index + 1) % 3);
            assert_eq!(ring.complete(), Some(index));
        }
    }
}

#[test]
fn generator_waits_when_all_blocks_are_queued() {
    let mut ring = BlockRing::new(2).unwrap();
    assert!(ring.try_acquire().is_some());
    assert_eq!(ring.submit(), Some(0));
    assert!(ring.try_acquire().is_some());
    assert_eq!(ring.submit(), Some(1));
    assert_eq!(ring.free(), 0);
    assert_eq!(ring.queued(), 2);
    assert_eq!(ring.try_acquire(), None);
    assert_eq!(ring.complete(), Some(0));
    assert_eq!(ring.free(), 1);
    assert_eq!(ring.try_acquire(), Some(Slot { index: 0, reused: true }));
}

#[test]
fn completions_come_in_submission_order() {
    let mut ring = BlockRing::new(4).unwrap();
    for index in 0..3usize {
        ring.try_acquire().unwrap();
        assert_eq!(ring.submit(), Some(index));
    }
    assert_eq!(ring.complete(), Some(0));
    ring.try_acquire().unwrap();
    assert_eq!(ring.submit(), Some(3));
    assert_eq!(ring.complete(), Some(1));
    assert_eq!(ring.complete(), Some(2));
    assert_eq!(ring.complete(), Some(3));
    assert_eq!(ring.complete(), None);
    assert_eq!(ring.free(), 4);
}

#[test]
fn spurious_completion_changes_nothing() {
    let mut ring = BlockRing::new(2).unwrap();
    assert_eq!(ring.complete(), None);
    assert_eq!(ring.free(), 2);
    ring.try_acquire().unwrap();
    // the block is being filled, not queued
    assert_eq!(ring.complete(), None);
    assert_eq!(ring.free(), 1);
}

#[test]
fn free_counter_stays_bounded_over_any_interleaving() {
    for blocks in 1..5usize {
        let mut ring = BlockRing::new(blocks).unwrap();
        // a fixed pseudo-random walk over the three events
        let mut state: u32 = 12345;
        for _ in 0..5_000 {
            state = state.wrapping_mul(1_103_515_245).wrapping_add(12_345);
            match (state >> 16) % 3 {
                0 => {
                    ring.try_acquire();
                },
                1 => {
                    ring.submit();
                },
                _ => {
                    ring.complete();
                },
            }
            assert!(ring.free() <= blocks);
            assert!(ring.cursor() < blocks);
            let filling = if ring.is_filling() { 1 } else { 0 };
            assert_eq!(ring.free() + ring.queued() + filling, blocks);
        }
    }
}

#[test]
fn clock_needs_a_rate() {
    assert!(AudioClock::new(0).is_none());
    assert!(AudioClock::new(1).is_some());
}

#[test]
fn clock_starts_at_zero() {
    let clock = AudioClock::new(44100).unwrap();
    assert_eq!(clock.frames(), 0);
    assert_eq!(clock.sample_rate(), 44100);
    assert_eq!(clock.now(), 0);
}

#[test]
fn clock_advances_by_one_frame() {
    let mut clock = AudioClock::new(44100).unwrap();
    clock.advance();
    assert_eq!(clock.frames(), 1);
    // 1 / 44100 s = 22675.736... ns
    assert_eq!(clock.now(), 22_675);
    clock.advance();
    assert_eq!(clock.now(), 45_351);
    clock.advance();
    assert_eq!(clock.now(), 68_027);
}

#[test]
fn clock_is_exact_at_whole_seconds() {
    let mut clock = AudioClock::new(44100).unwrap();
    for _ in 0..44100 {
        clock.advance();
    }
    assert_eq!(clock.now(), 1_000_000_000);
    for _ in 0..44100 {
        clock.advance();
    }
    assert_eq!(clock.now(), 2_000_000_000);
}

#[test]
fn clock_never_runs_backwards() {
    let mut clock = AudioClock::new(48000).unwrap();
    let mut last = clock.now();
    for _ in 0..10_000 {
        clock.advance();
        let now = clock.now();
        assert!(now >= last);
        last = now;
    }
}

#[test]
fn clock_reading_is_held_within_64_bits() {
    // at one frame per second a tick count passes the top of the range
    // after about 9.2e9 frames; the reading then stays at the top
    let mut clock = AudioClock::new(1).unwrap();
    clock.advance();
    assert_eq!(clock.now(), 1_000_000_000);
}
