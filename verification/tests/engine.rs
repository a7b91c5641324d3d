use noise_maker::engine::{ConfigError, EngineState, NoiseMaker, Step};
use noise_maker::format::{SampleFormat, WAVE_FORMAT_PCM};
use noise_maker::ring::Slot;
use std::cell::{Cell, RefCell};

fn standard() -> NoiseMaker {
    match NoiseMaker::new(0, 1, 44100, 1, 16, 8, 256) {
        Ok(engine) => engine,
        Err(error) => panic!("no engine: {}", error.message()),
    }
}

#[test]
fn engine_opens_running_with_all_blocks_free() {
    let engine = standard();
    assert_eq!(engine.state(), EngineState::Running);
    assert_eq!(engine.free_blocks(), 8);
    assert_eq!(engine.block_count(), 8);
    assert_eq!(engine.block_len(), 256);
    assert_eq!(engine.get_time(), 0);
    assert_eq!(engine.device_id(), 0);
    assert_eq!(engine.format(), SampleFormat::Pcm16);
    for index in 0..8 {
        assert_eq!(engine.block(index), Some(vec![0i32; 256]));
    }
    assert_eq!(engine.block(8), None);
}

#[test]
fn engine_describes_its_wave_format() {
    let engine = NoiseMaker::new(1, 2, 48000, 2, 16, 4, 128).ok().unwrap();
    let wave = engine.wave_format();
    assert_eq!(wave.format_tag, WAVE_FORMAT_PCM);
    assert_eq!(wave.channels, 2);
    assert_eq!(wave.samples_per_sec, 48000);
    assert_eq!(wave.bits_per_sample, 16);
    assert_eq!(wave.block_align, 4);
    assert_eq!(wave.avg_bytes_per_sec, 192_000);
    assert_eq!(engine.block_len(), 256);
    assert_eq!(engine.device_id(), 1);
}

#[test]
fn device_index_out_of_range_is_refused() {
    assert_eq!(NoiseMaker::new(0, 0, 44100, 1, 16, 8, 256).err(), Some(ConfigError::DeviceOutOfRange));
    assert_eq!(NoiseMaker::new(2, 2, 44100, 1, 16, 8, 256).err(), Some(ConfigError::DeviceOutOfRange));
    assert_eq!(NoiseMaker::new(1, 2, 44100, 1, 16, 8, 256).err(), None);
    // the device is looked at first
    assert_eq!(NoiseMaker::new(5, 1, 0, 0, 7, 0, 0).err(), Some(ConfigError::DeviceOutOfRange));
}

#[test]
fn unsupported_format_is_refused() {
    assert_eq!(NoiseMaker::new(0, 1, 44100, 1, 24, 8, 256).err(), Some(ConfigError::UnsupportedFormat));
    assert_eq!(NoiseMaker::new(0, 1, 44100, 1, 0, 8, 256).err(), Some(ConfigError::UnsupportedFormat));
    assert_eq!(NoiseMaker::new(0, 1, 0, 1, 16, 8, 256).err(), Some(ConfigError::UnsupportedFormat));
    assert_eq!(NoiseMaker::new(0, 1, 44100, 0, 16, 8, 256).err(), Some(ConfigError::UnsupportedFormat));
    assert_eq!(NoiseMaker::new(0, 1, 44100, 32768, 16, 8, 256).err(), Some(ConfigError::UnsupportedFormat));
    assert_eq!(NoiseMaker::new(0, 1, u32::MAX, 1, 16, 8, 256).err(), Some(ConfigError::UnsupportedFormat));
    // the format is looked at before the blocks
    assert_eq!(NoiseMaker::new(0, 1, 44100, 1, 24, 0, 0).err(), Some(ConfigError::UnsupportedFormat));
}

#[test]
fn invalid_block_layout_is_refused() {
    assert_eq!(NoiseMaker::new(0, 1, 44100, 1, 16, 0, 256).err(), Some(ConfigError::InvalidBlockLayout));
    assert_eq!(NoiseMaker::new(0, 1, 44100, 1, 16, 8, 0).err(), Some(ConfigError::InvalidBlockLayout));
    // a block of 2^31 frames of two bytes does not fit the device's length field
    assert_eq!(
        NoiseMaker::new(0, 1, 44100, 1, 16, 1, 0x8000_0000).err(),
        Some(ConfigError::InvalidBlockLayout)
    );
    // more samples than the machine can address
    assert_eq!(
        NoiseMaker::new(0, 1, 44100, 1, 8, usize::MAX, 2).err(),
        Some(ConfigError::InvalidBlockLayout)
    );
}

#[test]
fn config_errors_have_words() {
    assert_eq!(ConfigError::DeviceOutOfRange.message(), "device index out of range");
    assert_eq!(
        ConfigError::UnsupportedFormat.message(),
        "unsupported sample rate, channel count or bit depth"
    );
    assert_eq!(ConfigError::InvalidBlockLayout.message(), "invalid block count or block size");
}

#[test]
fn generation_takes_blocks_in_round_robin_order() {
    let mut engine = NoiseMaker::new(0, 1, 44100, 1, 16, 3, 4).ok().unwrap();
    let silence = |_t: i64| 0i64;
    for lap in 0..3 {
        for index in 0..3usize {
            assert_eq!(engine.next_block(), Step::Fill(Slot { index, reused: lap > 0 }));
            assert_eq!(engine.fill_block(&silence), Some(index));
            assert_eq!(engine.block_done(), Some(index));
        }
    }
}

#[test]
fn next_block_decrements_free_before_the_fill() {
    let mut engine = standard();
    assert_eq!(engine.next_block(), Step::Fill(Slot { index: 0, reused: false }));
    assert_eq!(engine.free_blocks(), 7);
    // asking again while the block is held gives the same block
    assert_eq!(engine.next_block(), Step::Fill(Slot { index: 0, reused: false }));
    assert_eq!(engine.free_blocks(), 7);
}

#[test]
fn generator_waits_while_no_block_is_free() {
    let mut engine = NoiseMaker::new(0, 1, 44100, 1, 16, 2, 4).ok().unwrap();
    let silence = |_t: i64| 0i64;
    for _ in 0..2 {
        assert!(matches!(engine.next_block(), Step::Fill(_)));
        assert!(engine.fill_block(&silence).is_some());
    }
    assert_eq!(engine.free_blocks(), 0);
    assert_eq!(engine.next_block(), Step::Wait);
    assert_eq!(engine.next_block(), Step::Wait);
    assert_eq!(engine.block_done(), Some(0));
    assert_eq!(engine.free_blocks(), 1);
    assert_eq!(engine.next_block(), Step::Fill(Slot { index: 0, reused: true }));
}

#[test]
fn fill_without_a_block_does_nothing() {
    let mut engine = standard();
    let calls = Cell::new(0u32);
    let counting = |_t: i64| {
        calls.set(calls.get() + 1);
        500_000i64
    };
    assert_eq!(engine.fill_block(&counting), None);
    assert_eq!(calls.get(), 0);
    assert_eq!(engine.get_time(), 0);
    assert_eq!(engine.free_blocks(), 8);
    assert_eq!(engine.block(0), Some(vec![0i32; 256]));
}

#[test]
fn fill_quantizes_the_callback_into_the_block() {
    let mut engine = standard();
    let half = |_t: i64| 500_000i64;
    engine.next_block();
    assert_eq!(engine.fill_block(&half), Some(0));
    assert_eq!(engine.block(0), Some(vec![16383i32; 256]));
    // the other blocks are untouched
    assert_eq!(engine.block(1), Some(vec![0i32; 256]));
    assert_eq!(engine.block(7), Some(vec![0i32; 256]));
}

#[test]
fn fill_clips_out_of_range_samples() {
    let mut engine = NoiseMaker::new(0, 1, 44100, 1, 16, 2, 4).ok().unwrap();
    let values = [3_000_000i64, -3_000_000, 1_000_000, -1_000_001];
    let next = Cell::new(0usize);
    let loud = |_t: i64| {
        let v = values[next.get() % 4];
        next.set(next.get() + 1);
        v
    };
    engine.next_block();
    engine.fill_block(&loud);
    assert_eq!(engine.block(0), Some(vec![32767, -32767, 32767, -32767]));
}

#[test]
fn fill_pulls_the_callback_at_increasing_instants() {
    let mut engine = NoiseMaker::new(0, 1, 1000, 1, 16, 2, 4).ok().unwrap();
    let seen = RefCell::new(Vec::new());
    let record = |t: i64| {
        seen.borrow_mut().push(t);
        t / 10
    };
    engine.next_block();
    engine.fill_block(&record);
    engine.next_block();
    engine.fill_block(&record);
    assert_eq!(
        *seen.borrow(),
        vec![0, 1_000_000, 2_000_000, 3_000_000, 4_000_000, 5_000_000, 6_000_000, 7_000_000]
    );
    // t / 10 millionths: 0, 0.1, 0.2, 0.3 of full scale
    assert_eq!(engine.block(0), Some(vec![0, 3276, 6553, 9830]));
    assert_eq!(engine.block(1), Some(vec![13106, 16383, 19660, 22936]));
    assert_eq!(engine.get_time(), 8_000_000);
}

#[test]
fn channels_of_a_frame_share_the_timestamp() {
    let mut engine = NoiseMaker::new(0, 1, 1000, 2, 16, 2, 3).ok().unwrap();
    assert_eq!(engine.block_len(), 6);
    let seen = RefCell::new(Vec::new());
    let record = |t: i64| {
        seen.borrow_mut().push(t);
        t / 10
    };
    engine.next_block();
    engine.fill_block(&record);
    assert_eq!(*seen.borrow(), vec![0, 0, 1_000_000, 1_000_000, 2_000_000, 2_000_000]);
    assert_eq!(engine.block(0), Some(vec![0, 0, 3276, 3276, 6553, 6553]));
    // three frames went by, not six
    assert_eq!(engine.get_time(), 3_000_000);
}

#[test]
fn clock_advances_by_one_block_per_fill() {
    let mut engine = standard();
    let silence = |_t: i64| 0i64;
    engine.next_block();
    engine.fill_block(&silence);
    // 256 / 44100 s
    assert_eq!(engine.get_time(), 5_804_988);
    engine.block_done();
    engine.next_block();
    engine.fill_block(&silence);
    assert_eq!(engine.get_time(), 11_609_977);
}

#[test]
fn get_time_never_decreases() {
    let mut engine = NoiseMaker::new(0, 1, 44100, 1, 16, 4, 32).ok().unwrap();
    let silence = |_t: i64| 0i64;
    let mut last = engine.get_time();
    let mut state: u32 = 99;
    for round in 0..2_000 {
        state = state.wrapping_mul(1_103_515_245).wrapping_add(12_345);
        match (state >> 16) % 4 {
            0 => {
                engine.next_block();
            },
            1 => {
                engine.fill_block(&silence);
            },
            2 => {
                engine.block_done();
            },
            _ => {
                if round > 1_500 {
                    engine.stop();
                }
            },
        }
        let now = engine.get_time();
        assert!(now >= last);
        assert!(engine.free_blocks() <= 4);
        last = now;
    }
}

#[test]
fn stop_ends_generation() {
    let mut engine = standard();
    let silence = |_t: i64| 0i64;
    engine.next_block();
    engine.fill_block(&silence);
    engine.stop();
    assert_eq!(engine.state(), EngineState::Stopping);
    assert_eq!(engine.next_block(), Step::Exit);
    assert_eq!(engine.state(), EngineState::Stopped);
    let time = engine.get_time();
    // nothing is taken, filled or submitted any more
    assert_eq!(engine.next_block(), Step::Exit);
    assert_eq!(engine.fill_block(&silence), None);
    assert_eq!(engine.get_time(), time);
    assert_eq!(engine.free_blocks(), 7);
    // the device may still give back what it holds
    assert_eq!(engine.block_done(), Some(0));
    assert_eq!(engine.free_blocks(), 8);
    assert_eq!(engine.block_done(), None);
    assert_eq!(engine.next_block(), Step::Exit);
    assert_eq!(engine.state(), EngineState::Stopped);
}

#[test]
fn stop_lets_the_block_in_progress_finish() {
    let mut engine = standard();
    let half = |_t: i64| 500_000i64;
    assert!(matches!(engine.next_block(), Step::Fill(_)));
    engine.stop();
    assert_eq!(engine.state(), EngineState::Stopping);
    // the held block is still offered, filled and submitted
    assert_eq!(engine.next_block(), Step::Fill(Slot { index: 0, reused: false }));
    assert_eq!(engine.fill_block(&half), Some(0));
    assert_eq!(engine.block(0), Some(vec![16383i32; 256]));
    assert_eq!(engine.next_block(), Step::Exit);
    assert_eq!(engine.state(), EngineState::Stopped);
}

#[test]
fn stopped_engine_does_not_resume() {
    let mut engine = standard();
    engine.stop();
    engine.stop();
    assert_eq!(engine.next_block(), Step::Exit);
    engine.stop();
    assert_eq!(engine.state(), EngineState::Stopped);
    assert_eq!(engine.next_block(), Step::Exit);
    assert_eq!(engine.free_blocks(), 8);
}

#[test]
fn stop_while_waiting_leaves_at_the_next_turn() {
    let mut engine = NoiseMaker::new(0, 1, 44100, 1, 16, 1, 4).ok().unwrap();
    let silence = |_t: i64| 0i64;
    engine.next_block();
    engine.fill_block(&silence);
    assert_eq!(engine.next_block(), Step::Wait);
    engine.stop();
    // no completion is needed for the thread to leave
    assert_eq!(engine.next_block(), Step::Exit);
}

#[test]
fn spurious_completion_does_not_raise_the_counter() {
    let mut engine = standard();
    assert_eq!(engine.block_done(), None);
    assert_eq!(engine.free_blocks(), 8);
    engine.next_block();
    assert_eq!(engine.block_done(), None);
    assert_eq!(engine.free_blocks(), 7);
}

#[test]
fn eight_bit_and_thirty_two_bit_engines_quantize_to_their_range() {
    let full = |_t: i64| 1_000_000i64;
    let mut small = NoiseMaker::new(0, 1, 8000, 1, 8, 2, 2).ok().unwrap();
    small.next_block();
    small.fill_block(&full);
    assert_eq!(small.block(0), Some(vec![127, 127]));
    let mut wide = NoiseMaker::new(0, 1, 8000, 1, 32, 2, 2).ok().unwrap();
    wide.next_block();
    wide.fill_block(&full);
    assert_eq!(wide.block(0), Some(vec![2147483647, 2147483647]));
}

#[test]
fn pure_callback_fills_equal_engines_alike() {
    let wave = |t: i64| (t % 2_000_001) - 1_000_000;
    let mut first = NoiseMaker::new(0, 1, 44100, 2, 16, 3, 64).ok().unwrap();
    let mut second = NoiseMaker::new(0, 1, 44100, 2, 16, 3, 64).ok().unwrap();
    for _ in 0..3 {
        first.next_block();
        second.next_block();
        assert_eq!(first.fill_block(&wave), second.fill_block(&wave));
    }
    for index in 0..3 {
        assert_eq!(first.block(index), second.block(index));
    }
    assert_eq!(first.get_time(), second.get_time());
}
