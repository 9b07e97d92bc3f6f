//! The capture worker's state machine.
//!
//! A long-lived worker owns the platform audio device; its device callbacks
//! run on the audio library's own threads. The state here captures what
//! those parts share: the generation counter that invalidates stale
//! callbacks, the recording and pause flags, the sample buffer, and the
//! level indicator's data. The embedding wraps one `CaptureState` in a lock
//! and gives each device callback the generation captured at stream
//! creation; every transition is specified here.

use vstd::prelude::*;

use crate::error::AsrError;
use crate::vad::{samples_ok, window_energy_spec};

verus! {

/// The shared state of the capture worker.
#[derive(Debug)]
pub struct CaptureState {
    /// Bumped on every start; callbacks carrying another value are stale.
    pub generation: u64,
    /// Whether a recording is in progress.
    pub recording: bool,
    /// Whether the recording is paused.
    pub paused: bool,
    /// Whether a device stream currently exists.
    pub has_stream: bool,
    /// The hardware sample rate of the current stream.
    pub sample_rate: u32,
    /// The captured samples, in millionths of full scale.
    pub buffer: Vec<i32>,
    /// The energy (sum of squared amplitudes) of the last accepted packet,
    /// feeding the level indicator.
    pub last_packet_energy: u64,
    /// The length of the last accepted packet.
    pub last_packet_len: usize,
}

impl CaptureState {
    /// The invariant of the worker: recording only while a stream exists.
    pub open spec fn wf(self) -> bool {
        self.recording ==> self.has_stream
    }

    /// A fresh worker: not recording, empty buffer, generation zero.
    pub fn new() -> (r: CaptureState)
        ensures
            r.wf(),
            r.generation == 0,
            !r.recording,
            !r.paused,
            !r.has_stream,
            r.sample_rate == 16000,
            r.buffer@ == Seq::<i32>::empty(),
            r.last_packet_energy == 0,
            r.last_packet_len == 0,
    {
        let r = CaptureState {
            generation: 0,
            recording: false,
            paused: false,
            has_stream: false,
            sample_rate: 16000,
            buffer: Vec::new(),
            last_packet_energy: 0,
            last_packet_len: 0,
        };
        proof {
            assert(r.buffer@ =~= Seq::<i32>::empty());
        }
        r
    }

    /// Whether a recording is in progress.
    pub fn is_recording(&self) -> (r: bool)
        ensures
            r == self.recording,
    {
        self.recording
    }

    /// The hardware sample rate of the current stream.
    pub fn sample_rate(&self) -> (r: u32)
        ensures
            r == self.sample_rate,
    {
        self.sample_rate
    }

    /// Records the hardware rate of a newly opened stream.
    pub fn set_sample_rate(&mut self, rate: u32)
        requires
            old(self).wf(),
        ensures
            final(self).wf(),
            *final(self) == (CaptureState { sample_rate: rate, ..*old(self) }),
    {
        self.sample_rate = rate;
    }

    /// Starts a recording: the generation is bumped first, which
    /// invalidates every in-flight callback, the buffer is cleared, and
    /// only then do the flags accept new samples. Starting while recording
    /// is an invalid state.
    pub fn start(&mut self) -> (r: Result<u64, AsrError>)
        requires
            old(self).wf(),
            old(self).generation < u64::MAX,
        ensures
            final(self).wf(),
            old(self).recording ==> (r matches Err(e) && e matches AsrError::InvalidState(_)
                && *final(self) == *old(self)),
            !old(self).recording ==> (r matches Ok(g) && {
                &&& g == old(self).generation + 1
                &&& final(self).generation == old(self).generation + 1
                &&& final(self).recording
                &&& !final(self).paused
                &&& final(self).has_stream
                &&& final(self).buffer@ == Seq::<i32>::empty()
                &&& final(self).sample_rate == old(self).sample_rate
            }),
    {
        if self.recording {
            return Err(AsrError::InvalidState("already recording".to_owned()));
        }
        self.generation = self.generation + 1;
        self.buffer = Vec::new();
        self.has_stream = true;
        self.paused = false;
        self.recording = true;
        proof {
            assert(self.buffer@ =~= Seq::<i32>::empty());
        }
        Ok(self.generation)
    }

    /// A device callback delivering one packet. A callback whose expected
    /// generation does not match the current one, or that arrives while not
    /// recording or while paused, makes no observable change; otherwise the
    /// packet is appended to the buffer and the level data updated.
    pub fn callback(&mut self, expected_generation: u64, packet: &Vec<i32>) -> (accepted: bool)
        requires
            old(self).wf(),
            samples_ok(packet@),
            packet@.len() <= 1_000_000,
            old(self).buffer@.len() + packet@.len() <= 0x4000_0000,
        ensures
            final(self).wf(),
            accepted == (expected_generation == old(self).generation && old(self).recording && !old(
                self,
            ).paused),
            !accepted ==> *final(self) == *old(self),
            accepted ==> {
                &&& final(self).buffer@ == old(self).buffer@ + packet@
                &&& final(self).last_packet_energy as int == window_energy_spec(
                    packet@,
                    0,
                    packet@.len() as int,
                )
                &&& final(self).last_packet_len == packet@.len()
                &&& final(self).generation == old(self).generation
                &&& final(self).recording == old(self).recording
                &&& final(self).paused == old(self).paused
                &&& final(self).has_stream == old(self).has_stream
                &&& final(self).sample_rate == old(self).sample_rate
            },
    {
        if expected_generation != self.generation {
            return false;
        }
        if !self.recording || self.paused {
            return false;
        }
        let energy = crate::vad::window_energy(packet, 0, packet.len());
        self.last_packet_energy = energy;
        self.last_packet_len = packet.len();
        let n: usize = packet.len();
        let mut buf: Vec<i32> = Vec::new();
        core::mem::swap(&mut buf, &mut self.buffer);
        let ghost old_buffer = buf@;
        let mut i: usize = 0;
        while i < n
            invariant
                i <= n,
                n == packet@.len(),
                buf@ == old_buffer + packet@.subrange(0, i as int),
                old_buffer.len() + n <= 0x4000_0000,
            decreases n - i,
        {
            buf.push(packet[i]);
            assert(buf@ =~= old_buffer + packet@.subrange(0, i + 1));
            i = i + 1;
        }
        proof {
            assert(packet@.subrange(0, n as int) =~= packet@);
        }
        self.buffer = buf;
        true
    }

    /// Stops the recording and hands out everything captured. The flags are
    /// cleared before the buffer is taken, so nothing is appended after the
    /// returned samples. Stopping while not recording is an invalid state.
    pub fn stop(&mut self) -> (r: Result<Vec<i32>, AsrError>)
        requires
            old(self).wf(),
        ensures
            final(self).wf(),
            !old(self).recording ==> (r matches Err(e) && e matches AsrError::InvalidState(_)
                && *final(self) == *old(self)),
            old(self).recording ==> (r matches Ok(samples) && {
                &&& samples@ == old(self).buffer@
                &&& !final(self).recording
                &&& !final(self).has_stream
                &&& final(self).buffer@ == Seq::<i32>::empty()
                &&& final(self).generation == old(self).generation
                &&& final(self).paused == old(self).paused
                &&& final(self).sample_rate == old(self).sample_rate
            }),
    {
        if !self.recording {
            return Err(AsrError::InvalidState("not recording".to_owned()));
        }
        self.recording = false;
        self.has_stream = false;
        let mut taken: Vec<i32> = Vec::new();
        core::mem::swap(&mut taken, &mut self.buffer);
        proof {
            assert(self.buffer@ =~= Seq::<i32>::empty());
        }
        Ok(taken)
    }

    /// Pauses the recording; invalid while not recording.
    pub fn pause(&mut self) -> (r: Result<(), AsrError>)
        requires
            old(self).wf(),
        ensures
            final(self).wf(),
            !old(self).recording ==> (r matches Err(e) && e matches AsrError::InvalidState(_)
                && *final(self) == *old(self)),
            old(self).recording ==> (r is Ok && *final(self) == (CaptureState {
                paused: true,
                ..*old(self)
            })),
    {
        if !self.recording {
            return Err(AsrError::InvalidState("not recording".to_owned()));
        }
        self.paused = true;
        Ok(())
    }

    /// Resumes the recording; invalid while not recording.
    pub fn resume(&mut self) -> (r: Result<(), AsrError>)
        requires
            old(self).wf(),
        ensures
            final(self).wf(),
            !old(self).recording ==> (r matches Err(e) && e matches AsrError::InvalidState(_)
                && *final(self) == *old(self)),
            old(self).recording ==> (r is Ok && *final(self) == (CaptureState {
                paused: false,
                ..*old(self)
            })),
    {
        if !self.recording {
            return Err(AsrError::InvalidState("not recording".to_owned()));
        }
        self.paused = false;
        Ok(())
    }

    /// The level indicator's data: the last accepted packet's energy and
    /// length. The indicator itself is `min(1, sqrt(10 · rms))` of that
    /// packet, a strictly monotone function of `energy / len`.
    pub fn audio_level_data(&self) -> (r: (u64, usize))
        ensures
            r.0 == self.last_packet_energy,
            r.1 == self.last_packet_len,
    {
        (self.last_packet_energy, self.last_packet_len)
    }
}

/// A callback staged before a stop and fired after the next start never
/// lands in the new recording's buffer: its expected generation is the one
/// captured before, and the start bumped the counter past it.
pub proof fn lemma_stale_callback_rejected(s: CaptureState, staged_generation: u64)
    requires
        staged_generation < s.generation,
    ensures
        !(staged_generation == s.generation && s.recording && !s.paused),
{
}

} // verus!
