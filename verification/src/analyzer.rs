//! The ingestion side of the spectrum analyzer.
//!
//! An analyzer collects samples into a window of fixed size and decides, from
//! the fill of that window and the time since the last frame, when a window is
//! handed out for transformation. A window that is full before its time is
//! held as it is: samples that arrive meanwhile are dropped, and the held
//! window goes out at the first call on which a frame is due.

use vstd::prelude::*;
use crate::buffer::{accepted, SampleBuffer};
use crate::config::{AnalyzerConfig, ConfigError};
use crate::frame::SpectrumFrame;
use crate::pacing::{
    frame_interval, lemma_interval_is_rate, spec_elapsed, spec_frame_interval, FramePacer,
};

verus! {

/// What an analyzer is, as far as its behaviour goes.
pub struct AnalyzerState<S> {
    /// Samples in a full window.
    pub capacity: int,
    /// Least time between two frames.
    pub interval: int,
    /// Samples collected since the last frame, oldest first.
    pub pending: Seq<S>,
    /// Time of the last frame, or of construction where none was produced.
    pub last_frame: int,
}

impl<S> AnalyzerState<S> {
    /// There are never more samples pending than a window holds.
    pub open spec fn wf(self) -> bool {
        0 <= self.pending.len() <= self.capacity
    }

    /// The state of a new analyzer made at time `now`.
    pub open spec fn initial(config: AnalyzerConfig, now: int) -> AnalyzerState<S> {
        AnalyzerState {
            capacity: config.window_size as int,
            interval: spec_frame_interval(config.frames_per_second as int),
            pending: Seq::empty(),
            last_frame: now,
        }
    }

    /// The pending samples once `samples` have been offered: those that fit
    /// are appended, the rest are dropped.
    pub open spec fn collected(self, samples: Seq<S>) -> Seq<S> {
        self.pending + accepted(self.pending.len() as int, self.capacity, samples)
    }

    /// Whether offering `samples` at time `now` produces a frame: the window
    /// is then full, and the least interval has passed since the last frame.
    pub open spec fn emits(self, samples: Seq<S>, now: int) -> bool {
        &&& self.collected(samples).len() == self.capacity
        &&& spec_elapsed(self.last_frame, now) >= self.interval
    }

    /// The state after `samples` have been offered at time `now`.
    pub open spec fn ingest(self, samples: Seq<S>, now: int) -> AnalyzerState<S> {
        if self.emits(samples, now) {
            AnalyzerState { pending: Seq::empty(), last_frame: now, ..self }
        } else {
            AnalyzerState { pending: self.collected(samples), ..self }
        }
    }
}

/// One call of `ingest`: the samples offered and the time of the call.
pub struct Offer<S> {
    /// The samples offered.
    pub samples: Seq<S>,
    /// The time of the call.
    pub now: int,
}

/// Number of samples in all of `offers` together.
pub open spec fn total_samples<S>(offers: Seq<Offer<S>>) -> int
    decreases offers.len(),
{
    if offers.len() == 0 {
        0
    } else {
        total_samples(offers.drop_last()) + offers.last().samples.len()
    }
}

impl<S> AnalyzerState<S> {
    /// The state after each of `offers` has been ingested, in order.
    pub open spec fn run(self, offers: Seq<Offer<S>>) -> AnalyzerState<S>
        decreases offers.len(),
    {
        if offers.len() == 0 {
            self
        } else {
            self.run(offers.drop_last()).ingest(offers.last().samples, offers.last().now)
        }
    }
}

/// Collects samples and paces the frames made from them.
pub struct SpectrumAnalyzer<S> {
    config: AnalyzerConfig,
    buffer: SampleBuffer<S>,
    pacer: FramePacer,
}

impl<S: Copy> View for SpectrumAnalyzer<S> {
    type V = AnalyzerState<S>;

    closed spec fn view(&self) -> AnalyzerState<S> {
        AnalyzerState {
            capacity: self.buffer.spec_capacity(),
            interval: self.pacer.spec_interval(),
            pending: self.buffer@,
            last_frame: self.pacer.spec_last_frame(),
        }
    }
}

impl<S: Copy> SpectrumAnalyzer<S> {
    /// The parameters that the analyzer was built from.
    pub closed spec fn spec_config(&self) -> AnalyzerConfig {
        self.config
    }

    /// The parameters are valid, the window and the interval are those that
    /// the parameters give, and the pending samples fit the window.
    pub open spec fn wf(&self) -> bool {
        &&& self.spec_config().is_valid()
        &&& self@.wf()
        &&& self@.capacity == self.spec_config().window_size
        &&& self@.interval == spec_frame_interval(
            self.spec_config().frames_per_second as int,
        )
    }

    /// An analyzer for `config`, made at time `now`. Fails on the first fault
    /// of `config`.
    pub fn new(config: AnalyzerConfig, now: u64) -> (r: Result<SpectrumAnalyzer<S>, ConfigError>)
        ensures
            r is Ok <==> config.is_valid(),
            r matches Ok(analyzer) ==> {
                &&& analyzer.wf()
                &&& analyzer.spec_config() == config
                &&& analyzer@ == AnalyzerState::<S>::initial(config, now as int)
            },
            r matches Err(fault) ==> config.spec_fault() == Some(fault),
    {
        match config.validate() {
            Err(fault) => Err(fault),
            Ok(()) => {
                let buffer: SampleBuffer<S> = SampleBuffer::new(config.window_size);
                let pacer = FramePacer::new(frame_interval(config.frames_per_second), now);
                Ok(SpectrumAnalyzer { config, buffer, pacer })
            },
        }
    }

    /// The parameters that the analyzer was built from.
    pub fn config(&self) -> (config: AnalyzerConfig)
        ensures
            config == self.spec_config(),
    {
        self.config
    }

    /// Number of samples collected since the last frame.
    pub fn pending(&self) -> (n: usize)
        ensures
            n == self@.pending.len(),
    {
        self.buffer.len()
    }

    /// Takes the bytes that were computed from a window of this analyzer as
    /// its frame. Gives `None` unless there is exactly one byte for each of
    /// the analyzer's bands.
    pub fn frame_of(&self, bytes: Vec<u8>) -> (frame: Option<SpectrumFrame>)
        ensures
            frame is Some <==> bytes@.len() == self.spec_config().band_count,
            frame matches Some(f) ==> f@ == bytes@,
    {
        SpectrumFrame::from_bytes(bytes, self.config.band_count)
    }

    /// Offers `samples` at time `now`, in nanoseconds on the caller's clock.
    ///
    /// Returns the full window, oldest sample first, when one is complete and
    /// a frame is due; the analyzer then starts collecting anew. Otherwise
    /// returns `None` and keeps what it has collected.
    pub fn ingest(&mut self, samples: &[S], now: u64) -> (window: Option<Vec<S>>)
        requires
            old(self).wf(),
        ensures
            final(self).wf(),
            final(self).spec_config() == old(self).spec_config(),
            final(self)@ == old(self)@.ingest(samples@, now as int),
            window is Some <==> old(self)@.emits(samples@, now as int),
            window matches Some(w) ==> w@ == old(self)@.collected(samples@),
    {
        let _taken: usize = self.buffer.fill(samples);
        if !self.buffer.is_full() {
            return None;
        }
        if !self.pacer.is_due(now) {
            return None;
        }
        self.pacer.mark(now);
        let window: Vec<S> = self.buffer.drain();
        Some(window)
    }
}

/// Frames keep the rate: an analyzer produces a frame exactly when the window
/// is full and the time since the last frame, in nanoseconds, is at least one
/// second divided by the frame rate of its parameters. A call that comes
/// sooner finds no frame, however full the window is.
pub proof fn lemma_frames_keep_the_rate<S: Copy>(
    analyzer: SpectrumAnalyzer<S>,
    samples: Seq<S>,
    now: int,
)
    requires
        analyzer.wf(),
    ensures
        analyzer@.emits(samples, now) <==> {
            &&& analyzer@.collected(samples).len() == analyzer.spec_config().window_size
            &&& spec_elapsed(analyzer@.last_frame, now)
                * analyzer.spec_config().frames_per_second >= 1_000_000_000
        },
        analyzer@.interval >= 1,
{
    lemma_interval_is_rate(
        analyzer.spec_config().frames_per_second as int,
        spec_elapsed(analyzer@.last_frame, now),
    );
}

/// No frame is produced before a full window of samples has come in: while
/// the samples pending at the start and those offered since add up to less
/// than a window, no call produces a frame, and every sample offered is kept.
pub proof fn lemma_no_frame_before_full_window<S>(state: AnalyzerState<S>, offers: Seq<Offer<S>>)
    requires
        state.wf(),
        state.pending.len() + total_samples(offers) < state.capacity,
    ensures
        forall|k: int|
            0 <= k < offers.len() ==> !(#[trigger] state.run(offers.take(k))).emits(
                offers[k].samples,
                offers[k].now,
            ),
        state.run(offers).wf(),
        state.run(offers).capacity == state.capacity,
        state.run(offers).pending.len() == state.pending.len() + total_samples(offers),
    decreases offers.len(),
{
    if offers.len() > 0 {
        let earlier = offers.drop_last();
        let last = offers.last();
        lemma_no_frame_before_full_window(state, earlier);
        let before = state.run(earlier);
        assert(!before.emits(last.samples, last.now));
        assert forall|k: int| 0 <= k < offers.len() implies !(#[trigger] state.run(
            offers.take(k),
        )).emits(offers[k].samples, offers[k].now) by {
            if k < offers.len() - 1 {
                assert(offers.take(k) == earlier.take(k));
                assert(offers[k] == earlier[k]);
            } else {
                assert(offers.take(k) == earlier);
            }
        }
    }
}

/// Frames are paced: from any state, as long as every call comes less than the
/// least interval after the last frame, no call produces a frame, however many
/// samples it brings, and the time of the last frame stays as it was.
pub proof fn lemma_no_frame_within_interval<S>(state: AnalyzerState<S>, offers: Seq<Offer<S>>)
    requires
        forall|k: int|
            0 <= k < offers.len() ==> spec_elapsed(state.last_frame, (#[trigger] offers[k]).now)
                < state.interval,
    ensures
        forall|k: int|
            0 <= k < offers.len() ==> !(#[trigger] state.run(offers.take(k))).emits(
                offers[k].samples,
                offers[k].now,
            ),
        state.run(offers).last_frame == state.last_frame,
        state.run(offers).interval == state.interval,
    decreases offers.len(),
{
    if offers.len() > 0 {
        let earlier = offers.drop_last();
        assert forall|k: int| 0 <= k < earlier.len() implies spec_elapsed(
            state.last_frame,
            (#[trigger] earlier[k]).now,
        ) < state.interval by {
            assert(earlier[k] == offers[k]);
        }
        lemma_no_frame_within_interval(state, earlier);
        assert(spec_elapsed(state.last_frame, offers[offers.len() - 1].now) < state.interval);
        assert forall|k: int| 0 <= k < offers.len() implies !(#[trigger] state.run(
            offers.take(k),
        )).emits(offers[k].samples, offers[k].now) by {
            if k < offers.len() - 1 {
                assert(offers.take(k) == earlier.take(k));
                assert(offers[k] == earlier[k]);
            } else {
                assert(offers.take(k) == earlier);
            }
        }
    }
}

/// A call that follows a frame by less than the least interval produces no
/// frame, even where it finds or fills a whole window.
pub proof fn lemma_second_frame_waits<S>(
    state: AnalyzerState<S>,
    first: Offer<S>,
    second: Offer<S>,
)
    requires
        state.emits(first.samples, first.now),
        spec_elapsed(first.now, second.now) < state.interval,
    ensures
        !state.ingest(first.samples, first.now).emits(second.samples, second.now),
{
}

/// A window that is full before its time is held unchanged, whatever is
/// offered meanwhile, and goes out at the first call on which a frame is due.
pub proof fn lemma_full_window_is_held<S>(
    state: AnalyzerState<S>,
    samples: Seq<S>,
    now: int,
)
    requires
        state.wf(),
        state.pending.len() == state.capacity,
    ensures
        state.collected(samples) == state.pending,
        state.emits(samples, now) <==> spec_elapsed(state.last_frame, now) >= state.interval,
        !state.emits(samples, now) ==> state.ingest(samples, now) == state,
{
    assert(state.pending + Seq::<S>::empty() == state.pending);
}

} // verus!
