//! The streaming engine: block lifecycle, the generation steps and the audio
//! clock, as one value that moves by events.
//!
//! The engine performs no input or output. The generation thread asks it what
//! to do next ([`NoiseMaker::next_block`]), lets it fill the block it was
//! given ([`NoiseMaker::fill_block`]) and passes that block to the device; the
//! device's completion notice is reported with [`NoiseMaker::block_done`].

use vstd::prelude::*;
use crate::clock::{frames_after, lemma_ticks_monotonic, next_frame, ticks_at, AudioClock};
use crate::format::{SampleFormat, WaveFormat};
use crate::ring::{lemma_event_keeps_invariant, BlockRing, RingEvent, RingState, Slot};

verus! {

/// Where the engine stands in its life.
#[derive(Clone, Copy, Debug, PartialEq, Eq, Structural)]
pub enum EngineState {
    /// Generation has ended; it does not start again.
    Stopped,
    /// Blocks are being generated.
    Running,
    /// A stop was asked for; generation ends after the block in progress.
    Stopping,
}

/// Why an engine could not be made.
#[derive(Clone, Copy, Debug, PartialEq, Eq, Structural)]
pub enum ConfigError {
    /// The device index is not below the number of devices.
    DeviceOutOfRange,
    /// The combination of sample rate, channel count and bit depth has no
    /// wave-format descriptor.
    UnsupportedFormat,
    /// The ring would be empty, a block would be empty, or their sizes do not
    /// fit the device's or the machine's limits.
    InvalidBlockLayout,
}

impl ConfigError {
    /// The error in words.
    pub fn message(self) -> (r: &'static str)
        ensures
            r@ == match self {
                ConfigError::DeviceOutOfRange => "device index out of range"@,
                ConfigError::UnsupportedFormat =>
                    "unsupported sample rate, channel count or bit depth"@,
                ConfigError::InvalidBlockLayout => "invalid block count or block size"@,
            },
    {
        match self {
            ConfigError::DeviceOutOfRange => "device index out of range",
            ConfigError::UnsupportedFormat => "unsupported sample rate, channel count or bit depth",
            ConfigError::InvalidBlockLayout => "invalid block count or block size",
        }
    }
}

/// What the generation thread does next.
#[derive(Clone, Copy, Debug, PartialEq, Eq, Structural)]
pub enum Step {
    /// Leave the generation loop.
    Exit,
    /// No block is free: wait for a completion notice, then ask again.
    Wait,
    /// Fill this block and submit it.
    Fill(Slot),
}

/// What can happen to the engine.
#[derive(Clone, Copy, Debug, PartialEq, Eq, Structural)]
pub enum EngineEvent {
    /// The generation thread asks what to do next.
    NextBlock,
    /// The generation thread fills and submits the block it holds.
    FillBlock,
    /// The device reports a block done.
    BlockDone,
    /// The owner asks the engine to stop.
    Stop,
}

/// The part of the engine that events move: its state, the ring and the
/// frame count.
pub struct Control {
    /// Where the engine stands in its life.
    pub state: EngineState,
    /// The block ring.
    pub ring: RingState,
    /// Frames generated so far.
    pub frames: nat,
    /// Frames in one block.
    pub block_frames: nat,
    /// Frames per second.
    pub sample_rate: nat,
}

impl Control {
    /// What holds of the control part at all times.
    pub open spec fn inv(self) -> bool {
        &&& self.ring.inv()
        &&& self.sample_rate > 0
        &&& self.block_frames > 0
        &&& self.frames <= u64::MAX
        &&& self.state == EngineState::Stopped ==> !self.ring.filling
    }

    /// The clock's reading in ticks.
    pub open spec fn now(self) -> int {
        ticks_at(self.frames, self.sample_rate)
    }

    /// What the generation thread is told when it asks: go on with a block in
    /// progress; else leave unless running; else take a block if one is free.
    pub open spec fn next_step(self) -> Step {
        if self.ring.filling {
            Step::Fill(Slot { index: self.ring.cursor as usize, reused: self.ring.wrapped })
        } else if self.state != EngineState::Running {
            Step::Exit
        } else if self.ring.free > 0 {
            Step::Fill(Slot { index: self.ring.cursor as usize, reused: self.ring.wrapped })
        } else {
            Step::Wait
        }
    }

    /// The control part after `event`.
    pub open spec fn after(self, event: EngineEvent) -> Control {
        match event {
            EngineEvent::NextBlock => {
                if self.ring.filling {
                    self
                } else if self.state != EngineState::Running {
                    Control { state: EngineState::Stopped, ..self }
                } else {
                    Control { ring: self.ring.after(RingEvent::Acquire), ..self }
                }
            },
            EngineEvent::FillBlock => {
                if self.ring.filling {
                    Control {
                        ring: self.ring.after(RingEvent::Submit),
                        frames: frames_after(self.frames, self.block_frames),
                        ..self
                    }
                } else {
                    self
                }
            },
            EngineEvent::BlockDone => Control { ring: self.ring.after(RingEvent::Complete), ..self },
            EngineEvent::Stop => {
                if self.state == EngineState::Running {
                    Control { state: EngineState::Stopping, ..self }
                } else {
                    self
                }
            },
        }
    }

    /// The control part after all of `events`, first to last.
    pub open spec fn run(self, events: Seq<EngineEvent>) -> Control
        decreases events.len(),
    {
        if events.len() == 0 {
            self
        } else {
            self.run(events.drop_last()).after(events.last())
        }
    }
}

/// No event breaks the invariant, moves the clock back, or restarts an engine
/// that is no longer running.
pub proof fn lemma_event_is_safe(control: Control, event: EngineEvent)
    requires
        control.inv(),
    ensures
        control.after(event).inv(),
        control.after(event).ring.block_count == control.ring.block_count,
        control.after(event).block_frames == control.block_frames,
        control.after(event).sample_rate == control.sample_rate,
        control.after(event).frames >= control.frames,
        control.after(event).now() >= control.now(),
        control.state != EngineState::Running ==> control.after(event).state
            != EngineState::Running,
{
    lemma_event_keeps_invariant(control.ring, RingEvent::Acquire);
    lemma_event_keeps_invariant(control.ring, RingEvent::Submit);
    lemma_event_keeps_invariant(control.ring, RingEvent::Complete);
    lemma_ticks_monotonic(control.frames, control.after(event).frames, control.sample_rate);
}

/// Over any interleaving of generation, completion and stop events, the free
/// counter stays within `0..=block_count`.
pub proof fn lemma_free_blocks_bounded(control: Control, events: Seq<EngineEvent>)
    requires
        control.inv(),
    ensures
        control.run(events).inv(),
        control.run(events).ring.block_count == control.ring.block_count,
        0 <= control.run(events).ring.free <= control.ring.block_count,
    decreases events.len(),
{
    if events.len() > 0 {
        lemma_free_blocks_bounded(control, events.drop_last());
        lemma_event_is_safe(control.run(events.drop_last()), events.last());
    }
}

/// Of two readings of the clock, the later is never the smaller, whatever
/// happened in between.
pub proof fn lemma_clock_is_monotonic(control: Control, events: Seq<EngineEvent>)
    requires
        control.inv(),
    ensures
        control.run(events).inv(),
        control.run(events).sample_rate == control.sample_rate,
        control.run(events).frames >= control.frames,
        control.run(events).now() >= control.now(),
    decreases events.len(),
{
    if events.len() > 0 {
        lemma_clock_is_monotonic(control, events.drop_last());
        lemma_event_is_safe(control.run(events.drop_last()), events.last());
    }
}

/// Once a stop was asked for, the engine never runs again, and it generates
/// at most the block that was in progress.
pub proof fn lemma_stop_ends_generation(control: Control, events: Seq<EngineEvent>)
    requires
        control.inv(),
        control.state != EngineState::Running,
    ensures
        control.run(events).inv(),
        control.run(events).state != EngineState::Running,
        control.run(events).block_frames == control.block_frames,
        control.ring.filling ==> control.run(events).frames == control.frames
            || control.run(events).frames == frames_after(control.frames, control.block_frames),
        !control.ring.filling ==> control.run(events).frames == control.frames
            && !control.run(events).ring.filling && control.run(events).ring.cursor
            == control.ring.cursor,
        control.run(events).frames != control.frames ==> !control.run(events).ring.filling,
    decreases events.len(),
{
    if events.len() > 0 {
        lemma_stop_ends_generation(control, events.drop_last());
        lemma_event_is_safe(control.run(events.drop_last()), events.last());
    }
}

/// After the engine has stopped, no block is taken, filled or submitted, and
/// the clock stands still: only completion notices still move the counter.
pub proof fn lemma_stopped_is_final(control: Control, events: Seq<EngineEvent>)
    requires
        control.inv(),
        control.state == EngineState::Stopped,
    ensures
        control.run(events).state == EngineState::Stopped,
        control.run(events).frames == control.frames,
        control.run(events).ring.cursor == control.ring.cursor,
        control.run(events).ring.wrapped == control.ring.wrapped,
        !control.run(events).ring.filling,
        control.run(events).ring.free >= control.ring.free,
        control.run(events).next_step() == Step::Exit,
    decreases events.len(),
{
    if events.len() > 0 {
        lemma_stopped_is_final(control, events.drop_last());
        lemma_free_blocks_bounded(control, events.drop_last());
    }
}

/// Whether `stored` is what `sample_fn` gave at `instant`, quantized in
/// `format`. A callback may answer differently each time it is asked; this
/// holds of any answer it can give.
pub open spec fn rendered<F: Fn(i64) -> i64>(
    sample_fn: F,
    format: SampleFormat,
    instant: i64,
    stored: i32,
) -> bool {
    exists|sample: i64| #[trigger]
        call_ensures(sample_fn, (instant,), sample) && stored == format.quantize_spec(
            sample as int,
        )
}

/// Whether the callback `sample_fn` is pure: asked at the same instant twice,
/// it answers the same.
pub open spec fn pure_callback<F: Fn(i64) -> i64>(sample_fn: F) -> bool {
    forall|instant: i64, a: i64, b: i64|
        #![trigger call_ensures(sample_fn, (instant,), a), call_ensures(sample_fn, (instant,), b)]
        call_ensures(sample_fn, (instant,), a) && call_ensures(sample_fn, (instant,), b) ==> a
            == b
}

/// A pure callback fills a sample slot in one way only.
pub proof fn lemma_pure_callback_gives_one_sample<F: Fn(i64) -> i64>(
    sample_fn: F,
    format: SampleFormat,
    instant: i64,
    a: i32,
    b: i32,
)
    requires
        pure_callback(sample_fn),
        rendered(sample_fn, format, instant, a),
        rendered(sample_fn, format, instant, b),
    ensures
        a == b,
{
    let x = choose|sample: i64| #[trigger]
        call_ensures(sample_fn, (instant,), sample) && a == format.quantize_spec(sample as int);
    let y = choose|sample: i64| #[trigger]
        call_ensures(sample_fn, (instant,), sample) && b == format.quantize_spec(sample as int);
    assert(x == y);
}

/// The first reason, if any, for which no engine exists for these settings.
pub open spec fn config_error(
    device_id: int,
    device_count: int,
    sample_rate: int,
    channels: int,
    bit_depth: int,
    blocks: int,
    block_samples: int,
) -> Option<ConfigError> {
    if device_id >= device_count {
        Some(ConfigError::DeviceOutOfRange)
    } else if SampleFormat::of_bits(bit_depth) is None || !WaveFormat::representable(
        sample_rate,
        channels,
        SampleFormat::of_bits(bit_depth)->0,
    ) {
        Some(ConfigError::UnsupportedFormat)
    } else if blocks <= 0 || block_samples <= 0 || block_samples * (channels * (bit_depth / 8))
        > u32::MAX || blocks * (block_samples * channels) > usize::MAX {
        Some(ConfigError::InvalidBlockLayout)
    } else {
        None
    }
}

/// The engine as a mathematical value.
pub struct EngineView {
    /// Index of the output device.
    pub device_id: nat,
    /// Sample format of the blocks.
    pub format: SampleFormat,
    /// Interleaved channels in a frame.
    pub channels: nat,
    /// State, ring and frame count.
    pub control: Control,
    /// The samples of all blocks, block after block.
    pub memory: Seq<i32>,
}

impl EngineView {
    /// Samples in one block: frames times channels.
    pub open spec fn block_len(self) -> nat {
        self.control.block_frames * self.channels
    }

    /// What holds of an engine at all times.
    pub open spec fn inv(self) -> bool {
        &&& self.control.inv()
        &&& WaveFormat::representable(
            self.control.sample_rate as int,
            self.channels as int,
            self.format,
        )
        &&& self.memory.len() == self.control.ring.block_count * self.block_len()
    }

    /// The wave-format descriptor of the engine's output.
    pub open spec fn wave_format(self) -> WaveFormat {
        WaveFormat::pcm_spec(self.control.sample_rate as int, self.channels as int, self.format)
    }

    /// The clock's reading in ticks.
    pub open spec fn now(self) -> int {
        self.control.now()
    }

    /// Where the block at `index` starts in the memory.
    pub open spec fn block_start(self, index: int) -> int {
        index * self.block_len()
    }

    /// The samples of the block at `index`.
    pub open spec fn block(self, index: int) -> Seq<i32> {
        self.memory.subrange(self.block_start(index), self.block_start(index) + self.block_len())
    }

    /// The instant at which frame `frame` of the block now being filled
    /// sounds.
    pub open spec fn frame_instant(self, frame: int) -> i64 {
        ticks_at(
            frames_after(self.control.frames, frame as nat),
            self.control.sample_rate,
        ) as i64
    }

    /// A running engine with all blocks free and silent and the clock at
    /// zero.
    pub open spec fn initial(
        device_id: nat,
        sample_rate: nat,
        channels: nat,
        format: SampleFormat,
        blocks: nat,
        block_samples: nat,
    ) -> EngineView {
        EngineView {
            device_id,
            format,
            channels,
            control: Control {
                state: EngineState::Running,
                ring: RingState::initial(blocks),
                frames: 0,
                block_frames: block_samples,
                sample_rate,
            },
            memory: Seq::new(blocks * (block_samples * channels), |i: int| 0i32),
        }
    }
}

/// Frame `frame` of a block holds the samples `frame * channels + channel`.
proof fn lemma_slot_frame(frame: int, channel: int, channels: int)
    requires
        0 <= frame,
        0 <= channel < channels,
    ensures
        (frame * channels + channel) / channels == frame,
        (frame + 1) * channels == frame * channels + channels,
{
    vstd::arithmetic::div_mod::lemma_fundamental_div_mod_converse(
        frame * channels + channel,
        channels,
        frame,
        channel,
    );
    assert((frame + 1) * channels == frame * channels + channels) by (nonlinear_arith);
}

/// The streaming engine.
pub struct NoiseMaker {
    device_id: usize,
    format: SampleFormat,
    wave: WaveFormat,
    channels: u16,
    block_frames: u32,
    block_len: usize,
    state: EngineState,
    ring: BlockRing,
    clock: AudioClock,
    memory: Vec<i32>,
}

impl View for NoiseMaker {
    type V = EngineView;

    closed spec fn view(&self) -> EngineView {
        EngineView {
            device_id: self.device_id as nat,
            format: self.format,
            channels: self.channels as nat,
            control: Control {
                state: self.state,
                ring: self.ring@,
                frames: self.clock@.frames,
                block_frames: self.block_frames as nat,
                sample_rate: self.clock@.sample_rate,
            },
            memory: self.memory@,
        }
    }
}

impl NoiseMaker {
    #[verifier::type_invariant]
    spec fn valid(&self) -> bool {
        &&& self@.inv()
        &&& self.block_len == self.block_frames * self.channels
        &&& self.clock@.sample_rate <= u32::MAX
        &&& self.wave == self@.wave_format()
    }

    /// Makes a running engine for device `device_id` of `device_count`, with
    /// `blocks` blocks of `block_samples` frames, or says why there is none.
    /// All blocks start free and silent, and the clock at zero.
    pub fn new(
        device_id: usize,
        device_count: usize,
        sample_rate: u32,
        channels: u16,
        bit_depth: u16,
        blocks: usize,
        block_samples: u32,
    ) -> (r: Result<NoiseMaker, ConfigError>)
        ensures
            match r {
                Ok(engine) => {
                    &&& config_error(
                        device_id as int,
                        device_count as int,
                        sample_rate as int,
                        channels as int,
                        bit_depth as int,
                        blocks as int,
                        block_samples as int,
                    ) is None
                    &&& SampleFormat::of_bits(bit_depth as int) matches Some(format)
                    &&& engine@ == EngineView::initial(
                        device_id as nat,
                        sample_rate as nat,
                        channels as nat,
                        format,
                        blocks as nat,
                        block_samples as nat,
                    )
                    &&& engine@.inv()
                },
                Err(error) => config_error(
                    device_id as int,
                    device_count as int,
                    sample_rate as int,
                    channels as int,
                    bit_depth as int,
                    blocks as int,
                    block_samples as int,
                ) == Some(error),
            },
    {
        if device_id >= device_count {
            return Err(ConfigError::DeviceOutOfRange);
        }
        let format = match SampleFormat::from_bits(bit_depth) {
            Some(format) => format,
            None => {
                return Err(ConfigError::UnsupportedFormat);
            },
        };
        let wave = match WaveFormat::pcm(sample_rate, channels, format) {
            Some(wave) => wave,
            None => {
                return Err(ConfigError::UnsupportedFormat);
            },
        };
        assert(wave.block_align == channels * (bit_depth / 8));
        if blocks == 0 || block_samples == 0 {
            return Err(ConfigError::InvalidBlockLayout);
        }
        assert(block_samples * wave.block_align <= u32::MAX * u16::MAX) by (nonlinear_arith)
            requires
                0 <= block_samples <= u32::MAX,
                0 <= wave.block_align <= u16::MAX,
        ;
        let block_bytes: u64 = block_samples as u64 * wave.block_align as u64;
        if block_bytes > u32::MAX as u64 {
            return Err(ConfigError::InvalidBlockLayout);
        }
        assert(block_samples * channels <= u32::MAX * u16::MAX) by (nonlinear_arith)
            requires
                0 <= block_samples <= u32::MAX,
                0 <= channels <= u16::MAX,
        ;
        let block_len: u64 = block_samples as u64 * channels as u64;
        assert(blocks * block_len <= usize::MAX * (u32::MAX * u16::MAX)) by (nonlinear_arith)
            requires
                0 <= blocks <= usize::MAX,
                0 <= block_len <= u32::MAX * u16::MAX,
        ;
        let total: u128 = blocks as u128 * block_len as u128;
        if total > usize::MAX as u128 {
            return Err(ConfigError::InvalidBlockLayout);
        }
        assert(block_len <= total) by (nonlinear_arith)
            requires
                blocks >= 1,
                block_len >= 0,
                total == blocks * block_len,
        ;
        let ring = match BlockRing::new(blocks) {
            Some(ring) => ring,
            None => {
                return Err(ConfigError::InvalidBlockLayout);
            },
        };
        let clock = match AudioClock::new(sample_rate) {
            Some(clock) => clock,
            None => {
                return Err(ConfigError::UnsupportedFormat);
            },
        };
        let memory: Vec<i32> = vec![0i32; total as usize];
        let engine = NoiseMaker {
            device_id,
            format,
            wave,
            channels,
            block_frames: block_samples,
            block_len: block_len as usize,
            state: EngineState::Running,
            ring,
            clock,
            memory,
        };
        assert(engine@.memory =~= Seq::new(
            (blocks as nat) * ((block_samples as nat) * (channels as nat)),
            |i: int| 0i32,
        ));
        Ok(engine)
    }

    /// Seconds of audio generated so far, in ticks. A later reading is never
    /// below an earlier one.
    pub fn get_time(&self) -> (r: i64)
        ensures
            r == self@.now(),
            r >= 0,
    {
        self.clock.now()
    }

    /// Asks the engine to stop: a running engine goes to `Stopping`, and the
    /// generation thread is told to leave when it next asks. Nothing else
    /// changes, and a second call changes nothing.
    pub fn stop(&mut self)
        ensures
            final(self)@.control == old(self)@.control.after(EngineEvent::Stop),
            final(self)@.inv(),
            final(self)@.device_id == old(self)@.device_id,
            final(self)@.format == old(self)@.format,
            final(self)@.channels == old(self)@.channels,
            final(self)@.memory == old(self)@.memory,
            final(self)@.control.state != EngineState::Running,
            final(self)@.now() == old(self)@.now(),
    {
        proof {
            use_type_invariant(&*self);
        }
        if self.state == EngineState::Running {
            self.state = EngineState::Stopping;
        }
    }

    /// Tells the generation thread what to do next. While it holds a block it
    /// is given that block again. Otherwise an engine that is not running
    /// ends generation for good, a running one hands out the block under the
    /// cursor and lowers the free counter, or says to wait when none is free.
    pub fn next_block(&mut self) -> (step: Step)
        ensures
            step == old(self)@.control.next_step(),
            final(self)@.control == old(self)@.control.after(EngineEvent::NextBlock),
            final(self)@.inv(),
            final(self)@.device_id == old(self)@.device_id,
            final(self)@.format == old(self)@.format,
            final(self)@.channels == old(self)@.channels,
            final(self)@.memory == old(self)@.memory,
            final(self)@.now() == old(self)@.now(),
            step matches Step::Fill(slot) ==> {
                &&& final(self)@.control.ring.filling
                &&& slot.index == final(self)@.control.ring.cursor
                &&& slot.index < final(self)@.control.ring.block_count
            },
    {
        proof {
            use_type_invariant(&*self);
        }
        if self.ring.is_filling() {
            Step::Fill(self.ring.current())
        } else if self.state != EngineState::Running {
            self.state = EngineState::Stopped;
            Step::Exit
        } else {
            match self.ring.try_acquire() {
                Some(slot) => Step::Fill(slot),
                None => Step::Wait,
            }
        }
    }

    /// Fills the block the generation thread holds and submits it. Each
    /// sample slot is `sample_fn` at the clock's reading, clipped and
    /// quantized; all channels of a frame share the reading, and the clock
    /// moves on by one frame after each frame. The cursor then moves to the
    /// next block. Gives the index of the block to pass to the device, or
    /// `None`, changing nothing, when no block is held.
    pub fn fill_block<F: Fn(i64) -> i64>(&mut self, sample_fn: &F) -> (r: Option<usize>)
        requires
            forall|instant: i64| call_requires(*sample_fn, (instant,)),
        ensures
            final(self)@.control == old(self)@.control.after(EngineEvent::FillBlock),
            final(self)@.inv(),
            final(self)@.device_id == old(self)@.device_id,
            final(self)@.format == old(self)@.format,
            final(self)@.channels == old(self)@.channels,
            final(self)@.memory.len() == old(self)@.memory.len(),
            final(self)@.now() >= old(self)@.now(),
            r is Some <==> old(self)@.control.ring.filling,
            r matches Some(index) ==> index == old(self)@.control.ring.cursor,
            !old(self)@.control.ring.filling ==> final(self)@.memory == old(self)@.memory,
            old(self)@.control.ring.filling ==> {
                let start = old(self)@.block_start(old(self)@.control.ring.cursor as int);
                &&& forall|i: int|
                    0 <= i < start || start + old(self)@.block_len() <= i < old(
                        self,
                    )@.memory.len() ==> final(self)@.memory[i] == old(self)@.memory[i]
                &&& forall|i: int|
                    start <= i < start + old(self)@.block_len() ==> rendered(
                        *sample_fn,
                        old(self)@.format,
                        old(self)@.frame_instant((i - start) / (old(self)@.channels as int)),
                        #[trigger] final(self)@.memory[i],
                    )
            },
    {
        proof {
            use_type_invariant(&*self);
            lemma_event_is_safe(self@.control, EngineEvent::FillBlock);
        }
        if !self.ring.is_filling() {
            return None;
        }
        let slot: Slot = self.ring.current();
        let count: usize = self.ring.block_count();
        let origin: u64 = self.clock.frames();
        let ghost before = self@;
        let ghost first = origin as nat;
        let ghost rate = self.clock@.sample_rate;
        let channels: u16 = self.channels;
        let block_frames: u32 = self.block_frames;
        let format: SampleFormat = self.format;
        proof {
            assert(self.memory.len() == count * self.block_len);
            assert(0 <= slot.index * self.block_len && slot.index * self.block_len
                + self.block_len <= count * self.block_len) by (nonlinear_arith)
                requires
                    0 <= slot.index < count,
                    self.block_len >= 0,
            ;
        }
        let start: usize = slot.index * self.block_len;
        let mut frame: u32 = 0;
        let mut at: usize = start;
        while frame < block_frames
            invariant
                channels > 0,
                frame <= block_frames,
                at == start + frame * channels,
                start + block_frames * channels <= self.memory.len(),
                self.memory.len() == before.memory.len(),
                self.device_id == before.device_id,
                self.format == format,
                self.wave == before.wave_format(),
                self.channels == channels,
                self.block_frames == block_frames,
                self.block_len == block_frames * channels,
                self.state == before.control.state,
                self.ring@ == before.control.ring,
                self.clock@.sample_rate == rate,
                self.clock@.frames == frames_after(first, frame as nat),
                first <= u64::MAX,
                before.inv(),
                before.control.frames == first,
                before.control.sample_rate == rate,
                before.control.block_frames == block_frames,
                before.channels == channels,
                before.format == format,
                rate <= u32::MAX,
                forall|instant: i64| call_requires(*sample_fn, (instant,)),
                forall|i: int|
                    0 <= i < start || start + block_frames * channels <= i < before.memory.len()
                        ==> self.memory[i] == before.memory[i],
                forall|i: int|
                    start <= i < at ==> rendered(
                        *sample_fn,
                        format,
                        ticks_at(
                            frames_after(first, ((i - start) / (channels as int)) as nat),
                            rate,
                        ) as i64,
                        #[trigger] self.memory[i],
                    ),
            decreases block_frames - frame,
        {
            let instant: i64 = self.clock.now();
            let mut channel: u16 = 0;
            proof {
                lemma_slot_frame(frame as int, 0, channels as int);
                assert(frame * channels + channels <= block_frames * channels)
                    by (nonlinear_arith)
                    requires
                        frame < block_frames,
                        channels > 0,
                ;
            }
            while channel < channels
                invariant
                    channels > 0,
                    channel <= channels,
                    frame < block_frames,
                    at == start + frame * channels + channel,
                    frame * channels + channels <= block_frames * channels,
                    start + block_frames * channels <= self.memory.len(),
                    self.memory.len() == before.memory.len(),
                    self.device_id == before.device_id,
                    self.format == format,
                    self.wave == before.wave_format(),
                    self.channels == channels,
                    self.block_frames == block_frames,
                    self.block_len == block_frames * channels,
                    self.state == before.control.state,
                    self.ring@ == before.control.ring,
                    self.clock@.sample_rate == rate,
                    self.clock@.frames == frames_after(first, frame as nat),
                    first <= u64::MAX,
                    before.inv(),
                    before.control.frames == first,
                    before.control.sample_rate == rate,
                    before.control.block_frames == block_frames,
                    before.channels == channels,
                    before.format == format,
                    rate <= u32::MAX,
                    instant == ticks_at(frames_after(first, frame as nat), rate),
                    forall|instant: i64| call_requires(*sample_fn, (instant,)),
                    forall|i: int|
                        0 <= i < start || start + block_frames * channels <= i
                            < before.memory.len() ==> self.memory[i] == before.memory[i],
                    forall|i: int|
                        start <= i < at ==> rendered(
                            *sample_fn,
                            format,
                            ticks_at(
                                frames_after(first, ((i - start) / (channels as int)) as nat),
                                rate,
                            ) as i64,
                            #[trigger] self.memory[i],
                        ),
                decreases channels - channel,
            {
                let sample: i64 = sample_fn(instant);
                let stored: i32 = format.quantize(sample);
                let ghost earlier = self.memory@;
                self.memory[at] = stored;
                proof {
                    lemma_slot_frame(frame as int, channel as int, channels as int);
                    assert(rendered(*sample_fn, format, instant, stored));
                    assert forall|i: int| start <= i < at + 1 implies rendered(
                        *sample_fn,
                        format,
                        ticks_at(
                            frames_after(first, ((i - start) / (channels as int)) as nat),
                            rate,
                        ) as i64,
                        #[trigger] self.memory[i],
                    ) by {
                        if i < at {
                            assert(self.memory[i] == earlier[i]);
                        }
                    }
                }
                at = at + 1;
                channel = channel + 1;
            }
            self.clock.advance();
            proof {
                lemma_slot_frame(frame as int, 0, channels as int);
            }
            frame = frame + 1;
        }
        self.ring.submit()
    }

    /// Where the engine stands in its life.
    pub fn state(&self) -> (r: EngineState)
        ensures
            r == self@.control.state,
            self@.inv(),
    {
        proof {
            use_type_invariant(self);
        }
        self.state
    }

    /// Blocks that neither the generator nor the device holds. The count is
    /// never above the number of blocks.
    pub fn free_blocks(&self) -> (r: usize)
        ensures
            r == self@.control.ring.free,
            r <= self@.control.ring.block_count,
            self@.inv(),
    {
        proof {
            use_type_invariant(self);
        }
        self.ring.free()
    }

    /// Blocks in the ring.
    pub fn block_count(&self) -> (r: usize)
        ensures
            r == self@.control.ring.block_count,
            r > 0,
    {
        self.ring.block_count()
    }

    /// Samples in one block: frames times channels.
    pub fn block_len(&self) -> (r: usize)
        ensures
            r == self@.block_len(),
            r > 0,
    {
        proof {
            use_type_invariant(self);
            assert(self.block_frames * self.channels > 0) by (nonlinear_arith)
                requires
                    self.block_frames > 0,
                    self.channels > 0,
            ;
        }
        self.block_len
    }

    /// Index of the output device.
    pub fn device_id(&self) -> (r: usize)
        ensures
            r == self@.device_id,
    {
        self.device_id
    }

    /// Sample format of the blocks.
    pub fn format(&self) -> (r: SampleFormat)
        ensures
            r == self@.format,
    {
        self.format
    }

    /// The wave-format descriptor to open the device with.
    pub fn wave_format(&self) -> (r: WaveFormat)
        ensures
            r == self@.wave_format(),
    {
        proof {
            use_type_invariant(self);
        }
        self.wave
    }

    /// A copy of the samples of the block at `index`, or `None` where the
    /// ring has no such block.
    pub fn block(&self, index: usize) -> (r: Option<Vec<i32>>)
        ensures
            r is Some <==> index < self@.control.ring.block_count,
            r matches Some(samples) ==> samples@ == self@.block(index as int),
    {
        proof {
            use_type_invariant(self);
        }
        let count: usize = self.ring.block_count();
        if index >= count {
            return None;
        }
        proof {
            assert(self.memory.len() == count * self.block_len);
            assert(0 <= index * self.block_len && index * self.block_len + self.block_len <= count
                * self.block_len) by (nonlinear_arith)
                requires
                    0 <= index < count,
                    self.block_len >= 0,
            ;
        }
        let start: usize = index * self.block_len;
        let mut samples: Vec<i32> = Vec::new();
        let mut i: usize = 0;
        while i < self.block_len
            invariant
                i <= self.block_len,
                start + self.block_len <= self.memory.len(),
                samples.len() == i,
                forall|k: int| 0 <= k < i ==> samples[k] == self.memory[start + k],
            decreases self.block_len - i,
        {
            samples.push(self.memory[start + i]);
            i = i + 1;
        }
        assert(samples@ =~= self@.block(index as int));
        Some(samples)
    }

    /// Records the device's notice that it is done with its oldest block: the
    /// free counter rises by one. Gives that block's index, or `None`,
    /// changing nothing, when the device holds no block.
    pub fn block_done(&mut self) -> (r: Option<usize>)
        ensures
            final(self)@.control == old(self)@.control.after(EngineEvent::BlockDone),
            final(self)@.inv(),
            final(self)@.device_id == old(self)@.device_id,
            final(self)@.format == old(self)@.format,
            final(self)@.channels == old(self)@.channels,
            final(self)@.memory == old(self)@.memory,
            final(self)@.now() == old(self)@.now(),
            r is Some <==> old(self)@.control.ring.queued() > 0,
            r matches Some(index) ==> index == old(self)@.control.ring.oldest_queued(),
    {
        proof {
            use_type_invariant(&*self);
        }
        self.ring.complete()
    }
}

} // verus!
