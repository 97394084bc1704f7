//! What the transport offers to the producer and the consumer of frames.

use crate::error::RtpError;
use vstd::prelude::*;

pub mod roundtrip;
pub mod video;

verus! {

/// Capacity of the queue between the producer and the sender.
pub const CHANNEL_BUFFER_SIZE: usize = 64;

/// The kind of media that a stream carries.
#[derive(Debug, Clone, Copy, PartialEq, Eq, Structural)]
pub enum StreamType {
    Audio,
    Video,
}

/// The word `video` in ASCII.
pub open spec fn video_tag() -> Seq<u8> {
    seq![0x76u8, 0x69u8, 0x64u8, 0x65u8, 0x6fu8]
}

/// The word `audio` in ASCII.
pub open spec fn audio_tag() -> Seq<u8> {
    seq![0x61u8, 0x75u8, 0x64u8, 0x69u8, 0x6fu8]
}

impl StreamType {
    /// The word that names the kind of media in a signaling record.
    pub open spec fn tag(self) -> Seq<u8> {
        match self {
            StreamType::Audio => audio_tag(),
            StreamType::Video => video_tag(),
        }
    }

    /// The kind of media that a word names: `video` or `audio`, in lower
    /// case. Any other word names none.
    pub open spec fn named(word: Seq<u8>) -> Option<StreamType> {
        if word == video_tag() {
            Some(StreamType::Video)
        } else if word == audio_tag() {
            Some(StreamType::Audio)
        } else {
            None
        }
    }

    /// The kind of media that a word names, if it names one.
    pub fn from_tag(word: &[u8]) -> (kind: Option<StreamType>)
        ensures
            kind == StreamType::named(word@),
    {
        if word.len() != 5 {
            return None;
        }
        if word[0] == 0x76 && word[1] == 0x69 && word[2] == 0x64 && word[3] == 0x65 && word[4]
            == 0x6f {
            assert(word@ =~= video_tag());
            Some(StreamType::Video)
        } else if word[0] == 0x61 && word[1] == 0x75 && word[2] == 0x64 && word[3] == 0x69
            && word[4] == 0x6f {
            assert(word@ =~= audio_tag());
            Some(StreamType::Audio)
        } else {
            None
        }
    }

    /// Ticks of the media clock per second: 90 kHz for video. Audio is
    /// not carried yet and has no clock.
    pub open spec fn spec_media_clock_rate(self) -> u32 {
        match self {
            StreamType::Audio => 0,
            StreamType::Video => 90_000,
        }
    }

    /// Ticks of the media clock between two frames: 3000 for video, which is
    /// 30 frames per second at 90 kHz. Audio is not carried yet and does not
    /// advance.
    pub open spec fn spec_timestamp_increment(self) -> u32 {
        match self {
            StreamType::Audio => 0,
            StreamType::Video => 3_000,
        }
    }

    #[verifier::when_used_as_spec(spec_media_clock_rate)]
    pub fn media_clock_rate(self) -> (rate: u32)
        ensures
            rate == self.spec_media_clock_rate(),
    {
        match self {
            StreamType::Audio => 0,
            StreamType::Video => 90_000,
        }
    }

    #[verifier::when_used_as_spec(spec_timestamp_increment)]
    pub fn timestamp_increment(self) -> (ticks: u32)
        ensures
            ticks == self.spec_timestamp_increment(),
    {
        match self {
            StreamType::Audio => 0,
            StreamType::Video => 3_000,
        }
    }
}

/// Which streams have been started. A stream of each kind is started at
/// most once.
pub struct StreamSlots {
    audio_started: bool,
    video_started: bool,
}

impl StreamSlots {
    /// Whether the stream of the given kind has been started.
    pub closed spec fn started(self, kind: StreamType) -> bool {
        match kind {
            StreamType::Audio => self.audio_started,
            StreamType::Video => self.video_started,
        }
    }

    /// No stream has been started.
    pub fn new() -> (slots: StreamSlots)
        ensures
            !slots.started(StreamType::Audio),
            !slots.started(StreamType::Video),
    {
        StreamSlots { audio_started: false, video_started: false }
    }

    /// Claims the stream of the given kind. A second claim of the same kind
    /// is refused and changes nothing.
    pub fn claim(&mut self, kind: StreamType) -> (res: Result<(), RtpError>)
        ensures
            final(self).started(kind),
            forall|other: StreamType| other != kind ==> final(self).started(other) == old(self).started(other),
            match res {
                Ok(_) => !old(self).started(kind),
                Err(e) => old(self).started(kind) && e == RtpError::DuplicateStreamInit,
            },
    {
        match kind {
            StreamType::Audio => {
                if self.audio_started {
                    return Err(RtpError::DuplicateStreamInit);
                }
                self.audio_started = true;
            },
            StreamType::Video => {
                if self.video_started {
                    return Err(RtpError::DuplicateStreamInit);
                }
                self.video_started = true;
            },
        }
        Ok(())
    }
}

} // verus!
