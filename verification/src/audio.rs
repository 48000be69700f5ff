//! Audio ingest.
use std::collections::VecDeque;

use vstd::prelude::*;
use vstd::string::*;

use crate::error::{is_not_implemented, Error};
use crate::text::copy_str;

pub mod rtp;

verus! {

/// The channels of an audio stream.
#[derive(Debug, Clone, Copy, PartialEq, Eq, Structural)]
pub enum ChannelLayout {
    Stereo,
    Surround51,
    Surround71,
}

/// Decode one packet to samples. Not there yet.
pub fn decode_packet(_payload: &[u8]) -> (r: Result<Vec<i16>, Error>)
    ensures
        r matches Err(e) && is_not_implemented(
            e,
            "audio::decode_packet"@,
            "protocol/08-audio-rtp.md"@,
        ),
{
    Err(Error::NotImplemented("audio::decode_packet", "protocol/08-audio-rtp.md"))
}

/// Why audio was not played.
#[derive(Debug, Clone, PartialEq, Eq)]
pub enum AudioError {
    NoBackend,
    Failed(String),
}

/// The text that describes an error.
pub open spec fn audio_error_text(e: AudioError) -> Seq<char> {
    match e {
        AudioError::NoBackend => "no audio backend available yet"@,
        AudioError::Failed(why) => "output failed: "@ + why@,
    }
}

impl AudioError {
    /// The text that describes this error.
    pub fn message(&self) -> (r: String)
        ensures
            r@ == audio_error_text(*self),
    {
        match self {
            AudioError::NoBackend => copy_str("no audio backend available yet"),
            AudioError::Failed(why) => {
                let mut s: String = copy_str("output failed: ");
                s.append(why.as_str());
                s
            },
        }
    }
}

/// An output device for decoded audio.
pub trait AudioOutput: Send {
    fn configure(&mut self, layout: ChannelLayout, sample_rate: u32) -> Result<(), AudioError>;

    fn play(&mut self, pcm: &[i16]) -> Result<(), AudioError>;
}

/// Samples per second and channel.
pub const SAMPLE_RATE: u32 = 48_000;

/// Channels of a stream.
pub const CHANNELS: usize = 2;

/// How much audio is queued at most, in milliseconds.
pub const MAX_BUFFER_MS: usize = 60;

/// The number of samples that [`MAX_BUFFER_MS`] come to.
pub const MAX_QUEUED_SAMPLES: usize = 5760;

/// The last `cap` samples of `s`.
pub open spec fn newest(s: Seq<i16>, cap: nat) -> Seq<i16> {
    if s.len() <= cap {
        s
    } else {
        s.skip(s.len() - cap)
    }
}

/// Samples waiting for the output device. When more come than it plays, the oldest go, so that
/// the delay stays bounded.
pub struct SampleQueue {
    samples: VecDeque<i16>,
    cap: usize,
}

impl SampleQueue {
    /// The samples that are waiting, oldest first.
    pub closed spec fn waiting(&self) -> Seq<i16> {
        self.samples@
    }

    /// How many samples wait at most.
    pub closed spec fn limit(&self) -> nat {
        self.cap as nat
    }

    /// An empty queue for up to `cap` samples.
    pub fn new(cap: usize) -> (r: Self)
        ensures
            r.waiting() == Seq::<i16>::empty(),
            r.limit() == cap,
    {
        SampleQueue { samples: VecDeque::new(), cap }
    }

    /// Add samples; the oldest go if there are too many.
    pub fn push(&mut self, pcm: &[i16])
        requires
            old(self).waiting().len() + pcm@.len() <= usize::MAX,
        ensures
            final(self).waiting() == newest(old(self).waiting() + pcm@, old(self).limit()),
            final(self).limit() == old(self).limit(),
    {
        let ghost start = self.samples@;
        let mut i: usize = 0;
        assert(start + pcm@.take(0) =~= start);
        while i < pcm.len()
            invariant
                i <= pcm.len(),
                self.samples@ == start + pcm@.take(i as int),
                self.cap == old(self).cap,
            decreases pcm.len() - i,
        {
            self.samples.push_back(pcm[i]);
            i += 1;
            assert(self.samples@ =~= start + pcm@.take(i as int));
        }
        assert(pcm@.take(i as int) =~= pcm@);
        let ghost all = self.samples@;
        let ghost mut gone: int = 0;
        assert(all.skip(0) =~= all);
        while self.samples.len() > self.cap
            invariant
                self.cap == old(self).cap,
                0 <= gone <= all.len(),
                self.samples@ == all.skip(gone),
                gone > 0 ==> all.len() - gone >= self.cap,
            decreases self.samples@.len(),
        {
            let _ = self.samples.pop_front();
            proof {
                gone = gone + 1;
            }
            assert(self.samples@ =~= all.skip(gone));
        }
    }

    /// Take the oldest sample; silence if there is none.
    pub fn pop(&mut self) -> (r: i16)
        ensures
            old(self).waiting().len() == 0 ==> r == 0 && final(self).waiting() == old(
                self,
            ).waiting(),
            old(self).waiting().len() > 0 ==> r == old(self).waiting()[0] && final(self).waiting()
                == old(self).waiting().skip(1),
            final(self).limit() == old(self).limit(),
    {
        match self.samples.pop_front() {
            Some(s) => {
                assert(self.samples@ =~= old(self).samples@.skip(1));
                s
            },
            None => 0,
        }
    }
}

/// What stays of too many samples are the latest, in their order, and as many as there may be.
pub proof fn law_newest(s: Seq<i16>, cap: nat)
    ensures
        newest(s, cap).len() == if s.len() < cap {
            s.len()
        } else {
            cap
        },
        forall|i: int|
            0 <= i < newest(s, cap).len() ==> #[trigger] newest(s, cap)[i] == s[s.len() - newest(
                s,
                cap,
            ).len() + i],
{
}

} // verus!
