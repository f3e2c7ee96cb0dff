//! An Opus stream in a WebM streaming container.

use vstd::prelude::*;

use super::webm::{cluster, make_track_uid, WebmStreamMuxer, TRACK_UID_LENGTH};
use super::AudioError;
use crate::data::{copy_to_start, overlaid};

verus! {

/// The sample rate of the codec.
pub const SAMPLE_RATE: u32 = 48000;

/// The frame length, in milliseconds.
pub const FRAME_LEN_MS: u64 = 40;

/// The maximum size of an encoded and contained frame.
pub const MAX_FRAME_LEN: usize = 4512;

/// The recommended size of the buffer that a packet is encoded into.
pub const MAX_PACKET_LEN: usize = 4000;

/// The number of bytes in a kilobyte.
pub const KILOBYTE: i32 = 1024;

/// How to set up the codec. The bitrate is in bits per second.
#[derive(Clone, Copy, Debug, PartialEq, Eq, Structural)]
pub struct OpusSettings {
    pub sample_rate: u32,
    pub channels: u8,
    pub bitrate: i32,
}

impl OpusSettings {
    /// How to set up the codec for the given number of channels, which is 1 or 2, and the given
    /// number of kilobytes per second.
    pub fn new(channels: u8, kbps: u16) -> (r: Result<OpusSettings, AudioError>)
        ensures
            r == (if channels == 1 || channels == 2 {
                Ok(
                    OpusSettings {
                        sample_rate: SAMPLE_RATE,
                        channels,
                        bitrate: (kbps * KILOBYTE * 8) as i32,
                    },
                )
            } else {
                Err(AudioError::InvalidChannels(channels))
            }),
    {
        if channels != 1 && channels != 2 {
            return Err(AudioError::InvalidChannels(channels));
        }
        Ok(
            OpusSettings {
                sample_rate: SAMPLE_RATE,
                channels,
                bitrate: kbps as i32 * KILOBYTE * 8,
            },
        )
    }
}

/// OpusEncoder is a WebM streaming compliant codec using the [`WebmStreamMuxer`], that can be
/// played in a browser using Media Source Extensions. It takes the packets that the codec has made.
#[derive(Clone, Copy, Debug, PartialEq, Eq, Structural)]
pub struct OpusEncoder {
    pub muxer: WebmStreamMuxer,
    pub wrote_initialization_segment: bool,
}

impl OpusEncoder {
    /// Whether the frames can be written.
    pub open spec fn well_formed(self) -> bool {
        self.muxer.sample_rate == SAMPLE_RATE
    }

    /// The encoder after a frame: the next one is not a keyframe any more.
    pub open spec fn started(self) -> OpusEncoder {
        OpusEncoder { wrote_initialization_segment: true, ..self }
    }

    /// A packet in its container. The first one is a keyframe.
    pub open spec fn contained(self, track_uid: Seq<u8>, packet: Seq<u8>, timestamp: u64) -> Seq<
        u8,
    > {
        self.muxer.frame(track_uid, packet, timestamp, !self.wrote_initialization_segment)
    }

    /// Creates a new instance of an OpusEncoder for a codec that was set up with the same
    /// parameters, and that has the given delay, in samples.
    pub fn new(channels: u8, kbps: u16, internal_delay: usize) -> (r: Result<
        OpusEncoder,
        AudioError,
    >)
        ensures
            r == (if channels == 1 || channels == 2 {
                Ok(
                    OpusEncoder {
                        muxer: WebmStreamMuxer {
                            sample_rate: SAMPLE_RATE,
                            channels,
                            internal_delay,
                        },
                        wrote_initialization_segment: false,
                    },
                )
            } else {
                Err(AudioError::InvalidChannels(channels))
            }),
    {
        match OpusSettings::new(channels, kbps) {
            Ok(settings) => Ok(
                OpusEncoder {
                    muxer: WebmStreamMuxer::new(
                        settings.sample_rate,
                        settings.channels,
                        internal_delay,
                    ),
                    wrote_initialization_segment: false,
                },
            ),
            Err(e) => Err(e),
        }
    }

    /// The preferred sample rate for this encoder.
    pub fn sample_rate(&self) -> (rate: u32)
        ensures
            rate == SAMPLE_RATE,
    {
        SAMPLE_RATE
    }

    /// The frame length, in milliseconds.
    pub fn frame_len_ms(&self) -> (len: u64)
        ensures
            len == FRAME_LEN_MS,
    {
        FRAME_LEN_MS
    }

    /// The number of channels.
    pub fn channels(&self) -> (channels: u8)
        ensures
            channels == self.muxer.channels,
    {
        self.muxer.channels
    }

    /// The internal delay of the codec, in samples.
    pub fn internal_delay(&self) -> (delay: usize)
        ensures
            delay == self.muxer.internal_delay,
    {
        self.muxer.internal_delay
    }

    /// The maximum size of an encoded and contained frame.
    pub fn max_frame_len(&self) -> (len: usize)
        ensures
            len == MAX_FRAME_LEN,
    {
        MAX_FRAME_LEN
    }

    /// Puts a packet into the provided buffer, in the container, for the given track. Returns the
    /// size of the payload, and whether the frame is a keyframe. There is no packet if the codec
    /// failed. If the buffer is too short, it is filled all the same.
    pub fn encode_frame_with(
        &mut self,
        track_uid: &[u8],
        timestamp: u64,
        packet: Option<&[u8]>,
        output: &mut [u8],
    ) -> (r: Result<(usize, bool), AudioError>)
        requires
            old(self).well_formed(),
        ensures
            *final(self) == old(self).started(),
            match packet {
                None => r == Err::<(usize, bool), _>(AudioError::Codec) && final(output)@ == old(
                    output,
                )@,
                Some(packet) => {
                    let frame = old(self).contained(track_uid@, packet@, timestamp);
                    &&& final(output)@ == overlaid(old(output)@, frame)
                    &&& r == (if frame.len() <= old(output)@.len() {
                        Ok((frame.len() as usize, !old(self).wrote_initialization_segment))
                    } else {
                        Err(AudioError::OutputTooShort)
                    })
                },
            },
    {
        let keyframe = !self.wrote_initialization_segment;
        self.wrote_initialization_segment = true;
        match packet {
            None => Err(AudioError::Codec),
            Some(packet) => {
                let mut frame: Vec<u8> = Vec::new();
                self.muxer.write_frame_with(&mut frame, track_uid, packet, timestamp, keyframe);
                assert(frame@ =~= old(self).contained(track_uid@, packet@, timestamp));
                copy_to_start(output, frame.as_slice());
                if frame.len() <= output.len() {
                    Ok((frame.len(), keyframe))
                } else {
                    Err(AudioError::OutputTooShort)
                }
            },
        }
    }

    /// Puts a packet into the provided buffer, in the container. The identifier of the track is
    /// made up where it is needed; where that fails, nothing is written. See
    /// [`OpusEncoder::encode_frame_with`].
    pub fn encode_frame(&mut self, timestamp: u64, packet: Option<&[u8]>, output: &mut [u8]) -> (r:
        Result<(usize, bool), AudioError>)
        requires
            old(self).well_formed(),
        ensures
            *final(self) == old(self).started(),
            match packet {
                None => r == Err::<(usize, bool), _>(AudioError::Codec) && final(output)@ == old(
                    output,
                )@,
                Some(packet) => {
                    ||| {
                        &&& !old(self).wrote_initialization_segment
                        &&& r == Err::<(usize, bool), _>(AudioError::Random)
                        &&& final(output)@ == old(output)@
                    }
                    ||| exists|uid: Seq<u8>|
                        {
                            let frame = #[trigger] old(self).contained(uid, packet@, timestamp);
                            &&& uid.len() == TRACK_UID_LENGTH
                            &&& final(output)@ == overlaid(old(output)@, frame)
                            &&& r == (if frame.len() <= old(output)@.len() {
                                Ok((frame.len() as usize, !old(self).wrote_initialization_segment))
                            } else {
                                Err(AudioError::OutputTooShort)
                            })
                        }
                },
            },
    {
        let uid = if packet.is_some() && !self.wrote_initialization_segment {
            match make_track_uid() {
                Ok(uid) => uid,
                Err(e) => {
                    self.wrote_initialization_segment = true;
                    return Err(e);
                },
            }
        } else {
            vec![0u8;TRACK_UID_LENGTH]
        };
        let r = self.encode_frame_with(uid.as_slice(), timestamp, packet, output);
        proof {
            if let Some(p) = packet {
                let frame = old(self).contained(uid@, p@, timestamp);
                assert(uid@.len() == TRACK_UID_LENGTH);
            }
        }
        r
    }
}

/// What an encoder makes of packets and their timestamps, one after the other.
pub open spec fn stream_data(
    enc: OpusEncoder,
    track_uid: Seq<u8>,
    packets: Seq<(Seq<u8>, u64)>,
) -> Seq<u8>
    decreases packets.len(),
{
    if packets.len() == 0 {
        Seq::empty()
    } else {
        let (packet, timestamp) = packets.last();
        let at = if packets.len() == 1 {
            enc
        } else {
            enc.started()
        };
        stream_data(enc, track_uid, packets.drop_last()) + at.contained(
            track_uid,
            packet,
            timestamp,
        )
    }
}

/// A Cluster for each packet.
pub open spec fn clusters(packets: Seq<(Seq<u8>, u64)>) -> Seq<u8>
    decreases packets.len(),
{
    if packets.len() == 0 {
        Seq::empty()
    } else {
        let (packet, timestamp) = packets.last();
        clusters(packets.drop_last()) + cluster(packet, timestamp)
    }
}

/// The frames of a stream make up one WebM file when they are put together: an Initialization
/// Segment and then a Cluster for each packet.
pub proof fn law_frames_make_up_a_file(
    enc: OpusEncoder,
    track_uid: Seq<u8>,
    packets: Seq<(Seq<u8>, u64)>,
)
    requires
        !enc.wrote_initialization_segment,
        packets.len() > 0,
    ensures
        stream_data(enc, track_uid, packets) == enc.muxer.initialization_segment(track_uid)
            + clusters(packets),
    decreases packets.len(),
{
    let start = enc.muxer.initialization_segment(track_uid);
    let (packet, timestamp) = packets.last();
    let last = cluster(packet, timestamp);
    let earlier = packets.drop_last();
    if packets.len() == 1 {
        assert(stream_data(enc, track_uid, earlier) =~= Seq::<u8>::empty());
        assert(clusters(earlier) =~= Seq::<u8>::empty());
        assert(Seq::<u8>::empty() + (start + last) =~= start + (Seq::<u8>::empty() + last));
    } else {
        law_frames_make_up_a_file(enc, track_uid, earlier);
        assert((start + clusters(earlier)) + last =~= start + (clusters(earlier) + last));
    }
}

} // verus!
