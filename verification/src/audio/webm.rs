//! A WebM container that is written as a stream.

use vstd::prelude::*;

use super::AudioError;
use crate::data::{big_endian, lemma_big_endian_len, push_slice, push_u64};
use crate::outside::random_bytes;

verus! {

/// The length of the identifier of a track.
pub const TRACK_UID_LENGTH: usize = 7;

/// The EBML header: a `webm` document of version 4.
pub const EBML_HEADER: [u8; 36] = [
    0x1a,
    0x45,
    0xdf,
    0xa3,
    0x9f,
    0x42,
    0x86,
    0x81,
    0x01,
    0x42,
    0xf7,
    0x81,
    0x01,
    0x42,
    0xf2,
    0x81,
    0x04,
    0x42,
    0xf3,
    0x81,
    0x08,
    0x42,
    0x82,
    0x84,
    0x77,
    0x65,
    0x62,
    0x6d,
    0x42,
    0x87,
    0x81,
    0x04,
    0x42,
    0x85,
    0x81,
    0x02,
];

/// The header of the segment, with an unknown size.
pub const SEGMENT_HEADER: [u8; 12] = [
    0x18,
    0x53,
    0x80,
    0x67,
    0x01,
    0xff,
    0xff,
    0xff,
    0xff,
    0xff,
    0xff,
    0xff,
];

/// The SeekHead element, with the positions of the Info, Tracks and Cluster elements. There is none
/// for the Cues element, which signals that it is missing.
pub const SEEK_HEAD: [u8; 47] = [
    0x11,
    0x4d,
    0x9b,
    0x74,
    0xaa,
    0x4d,
    0xbb,
    0x8b,
    0x53,
    0xab,
    0x84,
    0x15,
    0x49,
    0xa9,
    0x66,
    0x53,
    0xac,
    0x81,
    0x2f,
    0x4d,
    0xbb,
    0x8b,
    0x53,
    0xab,
    0x84,
    0x16,
    0x54,
    0xae,
    0x6b,
    0x53,
    0xac,
    0x81,
    0x5f,
    0x4d,
    0xbb,
    0x8b,
    0x53,
    0xab,
    0x84,
    0x1f,
    0x43,
    0xb6,
    0x75,
    0x53,
    0xac,
    0x81,
    0xa6,
];

/// The start of the Info element, with timestamps in milliseconds.
pub const SEGMENT_INFO: [u8; 12] = [
    0x15,
    0x49,
    0xa9,
    0x66,
    0xab,
    0x2a,
    0xd7,
    0xb1,
    0x83,
    0x0f,
    0x42,
    0x40,
];

/// The header of the name of the multiplexing application.
pub const MUXING_APP: [u8; 3] = [
    0x4d,
    0x80,
    0x8f,
];

/// The header of the name of the writing application.
pub const WRITING_APP: [u8; 3] = [
    0x57,
    0x41,
    0x8f,
];

/// The name of the application, `audiomux-v0.0.0`.
pub const APPLICATION_NAME: [u8; 15] = [
    0x61,
    0x75,
    0x64,
    0x69,
    0x6f,
    0x6d,
    0x75,
    0x78,
    0x2d,
    0x76,
    0x30,
    0x2e,
    0x30,
    0x2e,
    0x30,
];

/// The start of the Tracks element, with one TrackEntry, up to the header of the TrackUID.
pub const TRACKS: [u8; 13] = [
    0x16,
    0x54,
    0xae,
    0x6b,
    0xc2,
    0xae,
    0xc0,
    0xd7,
    0x81,
    0x01,
    0x73,
    0xc5,
    0x87,
];

/// An audio track with the codec `A_OPUS`, up to the header of the CodecDelay.
pub const TRACK_CODEC: [u8; 14] = [
    0x83,
    0x81,
    0x02,
    0x86,
    0x86,
    0x41,
    0x5f,
    0x4f,
    0x50,
    0x55,
    0x53,
    0x56,
    0xaa,
    0x84,
];

/// The start of the CodecPrivate element: an `OpusHead` of version 1.
pub const CODEC_PRIVATE: [u8; 12] = [
    0x63,
    0xa2,
    0x93,
    0x4f,
    0x70,
    0x75,
    0x73,
    0x48,
    0x65,
    0x61,
    0x64,
    0x01,
];

/// No output gain, and channel mapping family 0.
pub const CODEC_PRIVATE_END: [u8; 3] = [
    0x00,
    0x00,
    0x00,
];

/// The start of the Audio element: a sampling frequency of 48000, up to the header of the Channels.
pub const TRACK_AUDIO: [u8; 10] = [
    0xe1,
    0x89,
    0xb5,
    0x84,
    0x47,
    0x3b,
    0x80,
    0x00,
    0x9f,
    0x81,
];

/// The identifier of the Cluster element.
pub const CLUSTER: [u8; 4] = [
    0x1f,
    0x43,
    0xb6,
    0x75,
];

/// The header of the Timestamp element.
pub const CLUSTER_TIMESTAMP: [u8; 2] = [
    0xe7,
    0x88,
];

/// The identifier of the SimpleBlock element.
pub const SIMPLE_BLOCK: [u8; 1] = [
    0xa3,
];

/// The header of a block: track 1, no offset to the timestamp of the cluster, a keyframe.
pub const BLOCK_HEADER: [u8; 4] = [
    0x81,
    0x00,
    0x00,
    0x80,
];

/// The `width` lowest bytes of `n`, the lowest of them first.
pub open spec fn little_endian(n: int, width: nat) -> Seq<u8>
    decreases width,
{
    if width == 0 {
        Seq::empty()
    } else {
        seq![(n % 0x100) as u8] + little_endian(n / 0x100, (width - 1) as nat)
    }
}

/// The size of an element in two bytes. Its length is marked by the highest bits of the first one.
pub open spec fn size_2(n: int) -> Seq<u8> {
    seq![0x40u8 | ((n / 0x100) % 0x100) as u8, (n % 0x100) as u8]
}

/// WebmStreamMuxer is a WebM streaming muxer compliant with [mse-byte-stream-format-webm], that can
/// be played in a browser using Media Source Extensions.
///
/// References:
///
/// * [mse-byte-stream-format-webm] https://www.w3.org/TR/mse-byte-stream-format-webm/
/// * https://www.webmproject.org/docs/container/
/// * https://www.matroska.org/technical/elements.html
/// * https://www.matroska.org/technical/codec_specs.html
/// * https://www.matroska.org/technical/basics.html
#[derive(Clone, Copy, Debug, PartialEq, Eq, Structural)]
pub struct WebmStreamMuxer {
    pub sample_rate: u32,
    pub channels: u8,
    pub internal_delay: usize,
}

impl WebmStreamMuxer {
    /// The delay of the codec in nanoseconds.
    pub open spec fn codec_delay_ns(self) -> int {
        self.internal_delay * 1_000_000_000 / self.sample_rate as int
    }

    /// The WebM Initialization Segment, for the track with the identifier `track_uid`.
    pub open spec fn initialization_segment(self, track_uid: Seq<u8>) -> Seq<u8> {
        EBML_HEADER@ + SEGMENT_HEADER@ + SEEK_HEAD@ + self.info() + self.tracks(track_uid)
    }

    /// The Info element.
    pub open spec fn info(self) -> Seq<u8> {
        SEGMENT_INFO@ + MUXING_APP@ + APPLICATION_NAME@ + WRITING_APP@ + APPLICATION_NAME@
    }

    /// The Tracks element.
    pub open spec fn tracks(self, track_uid: Seq<u8>) -> Seq<u8> {
        TRACKS@ + track_uid + TRACK_CODEC@ + big_endian(self.codec_delay_ns(), 4) + CODEC_PRIVATE@
            + seq![self.channels] + little_endian(self.internal_delay as int, 2) + little_endian(
            self.sample_rate as int,
            4,
        ) + CODEC_PRIVATE_END@ + TRACK_AUDIO@ + seq![self.channels]
    }

    /// What is written for a frame.
    pub open spec fn frame(
        self,
        track_uid: Seq<u8>,
        frame: Seq<u8>,
        timestamp: u64,
        keyframe: bool,
    ) -> Seq<u8> {
        if keyframe {
            self.initialization_segment(track_uid) + cluster(frame, timestamp)
        } else {
            cluster(frame, timestamp)
        }
    }
}

/// A Cluster with one frame.
pub open spec fn cluster(frame: Seq<u8>, timestamp: u64) -> Seq<u8> {
    let n = frame.len() as int;
    CLUSTER@ + size_2(n + 17) + CLUSTER_TIMESTAMP@ + big_endian(timestamp as int, 8)
        + SIMPLE_BLOCK@ + size_2(n + 4) + BLOCK_HEADER@ + frame
}

fn push_size_2(w: &mut Vec<u8>, n: u128)
    ensures
        final(w)@ == old(w)@ + size_2(n as int),
{
    w.push(0x40u8 | ((n / 0x100) % 0x100) as u8);
    w.push((n % 0x100) as u8);
    assert(w@ =~= old(w)@ + size_2(n as int));
}

fn push_little_endian_2(w: &mut Vec<u8>, n: usize)
    ensures
        final(w)@ == old(w)@ + little_endian(n as int, 2),
{
    w.push((n % 0x100) as u8);
    w.push(((n / 0x100) % 0x100) as u8);
    proof {
        reveal_with_fuel(little_endian, 3);
    }
    assert(w@ =~= old(w)@ + little_endian(n as int, 2));
}

fn push_little_endian_4(w: &mut Vec<u8>, n: u32)
    ensures
        final(w)@ == old(w)@ + little_endian(n as int, 4),
{
    w.push((n % 0x100) as u8);
    w.push(((n / 0x100) % 0x100) as u8);
    w.push(((n / 0x1_0000) % 0x100) as u8);
    w.push((n / 0x100_0000) as u8);
    proof {
        reveal_with_fuel(little_endian, 5);
    }
    assert(w@ =~= old(w)@ + little_endian(n as int, 4));
}

fn push_big_endian_4(w: &mut Vec<u8>, n: u128)
    ensures
        final(w)@ == old(w)@ + big_endian(n as int, 4),
{
    w.push(((n / 0x100_0000) % 0x100) as u8);
    w.push(((n / 0x1_0000) % 0x100) as u8);
    w.push(((n / 0x100) % 0x100) as u8);
    w.push((n % 0x100) as u8);
    proof {
        reveal_with_fuel(big_endian, 5);
    }
    assert(w@ =~= old(w)@ + big_endian(n as int, 4));
}

/// Writes an Opus-encoded packet in a Cluster. Ideally, we could use a ShortBlock instead of a
/// whole Cluster, but this makes things a bit easier for the time being.
pub fn write_cluster(w: &mut Vec<u8>, frame: &[u8], timestamp: u64)
    ensures
        final(w)@ == old(w)@ + cluster(frame@, timestamp),
{
    push_slice(w, CLUSTER.as_slice());
    push_size_2(w, frame.len() as u128 + 17);
    push_slice(w, CLUSTER_TIMESTAMP.as_slice());
    push_u64(w, timestamp);
    push_slice(w, SIMPLE_BLOCK.as_slice());
    push_size_2(w, frame.len() as u128 + 4);
    push_slice(w, BLOCK_HEADER.as_slice());
    push_slice(w, frame);
    assert(w@ =~= old(w)@ + cluster(frame@, timestamp));
}

/// Makes up the identifier of a track.
pub fn make_track_uid() -> (uid: Result<Vec<u8>, AudioError>)
    ensures
        match uid {
            Ok(uid) => uid@.len() == TRACK_UID_LENGTH,
            Err(e) => e is Random,
        },
{
    match random_bytes(TRACK_UID_LENGTH) {
        Some(bytes) => Ok(bytes),
        None => Err(AudioError::Random),
    }
}

impl WebmStreamMuxer {
    /// A muxer for the given format. The delay is counted in samples.
    pub fn new(sample_rate: u32, channels: u8, internal_delay: usize) -> (muxer: WebmStreamMuxer)
        ensures
            muxer == (WebmStreamMuxer { sample_rate, channels, internal_delay }),
    {
        WebmStreamMuxer { sample_rate, channels, internal_delay }
    }

    /// Writes the WebM Initialization Segment for the given track.
    pub fn write_initialization_segment_with(&self, w: &mut Vec<u8>, track_uid: &[u8])
        requires
            self.sample_rate != 0,
        ensures
            final(w)@ == old(w)@ + self.initialization_segment(track_uid@),
    {
        push_slice(w, EBML_HEADER.as_slice());
        push_slice(w, SEGMENT_HEADER.as_slice());
        push_slice(w, SEEK_HEAD.as_slice());
        assert(w@ =~= old(w)@ + (EBML_HEADER@ + SEGMENT_HEADER@ + SEEK_HEAD@));
        let ghost before_info = w@;
        push_slice(w, SEGMENT_INFO.as_slice());
        push_slice(w, MUXING_APP.as_slice());
        push_slice(w, APPLICATION_NAME.as_slice());
        push_slice(w, WRITING_APP.as_slice());
        push_slice(w, APPLICATION_NAME.as_slice());
        assert(w@ =~= before_info + self.info());
        self.write_tracks(w, track_uid);
        assert(w@ =~= old(w)@ + self.initialization_segment(track_uid@));
    }

    fn write_tracks(&self, w: &mut Vec<u8>, track_uid: &[u8])
        requires
            self.sample_rate != 0,
        ensures
            final(w)@ == old(w)@ + self.tracks(track_uid@),
    {
        push_slice(w, TRACKS.as_slice());
        push_slice(w, track_uid);
        push_slice(w, TRACK_CODEC.as_slice());
        let codec_delay_ns: u128 = self.internal_delay as u128 * 1_000_000_000
            / self.sample_rate as u128;
        push_big_endian_4(w, codec_delay_ns);
        push_slice(w, CODEC_PRIVATE.as_slice());
        w.push(self.channels);
        push_little_endian_2(w, self.internal_delay);
        push_little_endian_4(w, self.sample_rate);
        push_slice(w, CODEC_PRIVATE_END.as_slice());
        push_slice(w, TRACK_AUDIO.as_slice());
        w.push(self.channels);
        assert(w@ =~= old(w)@ + self.tracks(track_uid@));
    }

    /// Writes the WebM Initialization Segment, which consists of:
    ///
    /// - The EBML Header
    /// - The Segment header (with an unknown size)
    /// - The SeekHead element (to comply with the WebM spec and signal the lack of a Cues element)
    /// - The Segment Information element
    /// - The Tracks element
    ///
    /// This Initialization Segment can be sent once at the beginning of every connection. The
    /// identifier of the track is made up; where that fails nothing is written.
    pub fn write_initialization_segment(&self, w: &mut Vec<u8>) -> (r: Result<(), AudioError>)
        requires
            self.sample_rate != 0,
        ensures
            match r {
                Ok(()) => exists|uid: Seq<u8>|
                    uid.len() == TRACK_UID_LENGTH && final(w)@ == old(w)@
                        + #[trigger] self.initialization_segment(uid),
                Err(e) => e is Random && final(w)@ == old(w)@,
            },
    {
        let uid = make_track_uid()?;
        self.write_initialization_segment_with(w, uid.as_slice());
        Ok(())
    }

    /// Writes an encoded packet, behind an Initialization Segment for the given track if it is a
    /// keyframe.
    pub fn write_frame_with(
        &self,
        w: &mut Vec<u8>,
        track_uid: &[u8],
        frame: &[u8],
        timestamp: u64,
        keyframe: bool,
    )
        requires
            self.sample_rate != 0,
        ensures
            final(w)@ == old(w)@ + self.frame(track_uid@, frame@, timestamp, keyframe),
    {
        if keyframe {
            self.write_initialization_segment_with(w, track_uid);
        }
        write_cluster(w, frame, timestamp);
        assert(w@ =~= old(w)@ + self.frame(track_uid@, frame@, timestamp, keyframe));
    }

    /// Writes an encoded packet, behind an Initialization Segment if it is a keyframe.
    pub fn write_frame(&self, w: &mut Vec<u8>, frame: &[u8], timestamp: u64, keyframe: bool) -> (r:
        Result<(), AudioError>)
        requires
            self.sample_rate != 0,
        ensures
            match r {
                Ok(()) => exists|uid: Seq<u8>|
                    uid.len() == TRACK_UID_LENGTH && final(w)@ == old(w)@ + #[trigger] self.frame(
                        uid,
                        frame@,
                        timestamp,
                        keyframe,
                    ),
                Err(e) => keyframe && e is Random && final(w)@ == old(w)@,
            },
    {
        if keyframe {
            self.write_initialization_segment(w)?;
        }
        let ghost before = w@;
        write_cluster(w, frame, timestamp);
        proof {
            if keyframe {
                let uid = choose|uid: Seq<u8>|
                    uid.len() == TRACK_UID_LENGTH && before == old(w)@
                        + #[trigger] self.initialization_segment(uid);
                assert(w@ =~= old(w)@ + self.frame(uid, frame@, timestamp, keyframe));
            } else {
                let uid = Seq::new(TRACK_UID_LENGTH as nat, |i: int| 0u8);
                assert(w@ =~= old(w)@ + self.frame(uid, frame@, timestamp, keyframe));
            }
        }
        Ok(())
    }
}

/// The number that the size of an element in two bytes stands for.
pub open spec fn size_2_value(s: Seq<u8>) -> int {
    (s[0] - 0x40) * 0x100 + s[1]
}

proof fn lemma_size_2(n: int)
    requires
        0 <= n < 0x4000,
    ensures
        size_2(n).len() == 2,
        size_2_value(size_2(n)) == n,
{
    let high: u8 = ((n / 0x100) % 0x100) as u8;
    assert(high < 0x40 ==> 0x40u8 | high == high + 0x40) by (bit_vector);
    assert(high == n / 0x100);
}

/// A Cluster says how long it is, and so does the SimpleBlock in it: behind each of the two sizes
/// come exactly that many bytes, as long as the frame is short enough for the size to be written.
pub proof fn law_cluster_sizes(frame: Seq<u8>, timestamp: u64)
    requires
        frame.len() + 17 < 0x4000,
    ensures
        cluster(frame, timestamp).len() == frame.len() + 23,
        size_2_value(cluster(frame, timestamp).subrange(4, 6)) == cluster(frame, timestamp).len()
            - 6,
        size_2_value(cluster(frame, timestamp).subrange(17, 19)) == cluster(frame, timestamp).len()
            - 19,
        cluster(frame, timestamp).skip(23) == frame,
{
    let c = cluster(frame, timestamp);
    lemma_size_2(frame.len() as int + 17);
    lemma_size_2(frame.len() as int + 4);
    lemma_big_endian_len(timestamp as int, 8);
    assert(c.subrange(4, 6) =~= size_2(frame.len() as int + 17));
    assert(c.subrange(17, 19) =~= size_2(frame.len() as int + 4));
    assert(c.skip(23) =~= frame);
}

proof fn lemma_little_endian_len(n: int, width: nat)
    ensures
        little_endian(n, width).len() == width,
    decreases width,
{
    if width > 0 {
        lemma_little_endian_len(n / 0x100, (width - 1) as nat);
    }
}

/// The elements of an Initialization Segment are as long as they say: the EBML header, the
/// SeekHead, the Info and the Tracks, with the TrackEntry in it. The positions in the SeekHead,
/// which count from the end of the segment's header, are those of the Info, of the Tracks, and of
/// the Cluster that follows the Initialization Segment.
pub proof fn law_initialization_segment_layout(muxer: WebmStreamMuxer, track_uid: Seq<u8>)
    requires
        track_uid.len() == TRACK_UID_LENGTH,
    ensures
        EBML_HEADER[4] - 0x80 == EBML_HEADER@.len() - 5,
        SEEK_HEAD[4] - 0x80 == SEEK_HEAD@.len() - 5,
        muxer.info()[4] - 0x80 == muxer.info().len() - 5,
        muxer.tracks(track_uid)[4] - 0x80 == muxer.tracks(track_uid).len() - 5,
        muxer.tracks(track_uid)[6] - 0x80 == muxer.tracks(track_uid).len() - 7,
        SEEK_HEAD[18] == SEEK_HEAD@.len(),
        SEEK_HEAD[32] == SEEK_HEAD@.len() + muxer.info().len(),
        SEEK_HEAD[46] == SEEK_HEAD@.len() + muxer.info().len() + muxer.tracks(track_uid).len(),
        muxer.initialization_segment(track_uid).len() == EBML_HEADER@.len() + SEGMENT_HEADER@.len()
            + SEEK_HEAD[46],
        muxer.initialization_segment(track_uid).len() == 214,
{
    lemma_big_endian_len(muxer.codec_delay_ns(), 4);
    lemma_little_endian_len(muxer.internal_delay as int, 2);
    lemma_little_endian_len(muxer.sample_rate as int, 4);
    let info = muxer.info();
    let tracks = muxer.tracks(track_uid);
    assert(info[4] == SEGMENT_INFO[4]);
    assert(tracks[4] == TRACKS[4]);
    assert(tracks[6] == TRACKS[6]);
}

} // verus!
