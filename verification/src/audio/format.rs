//! What the messages of an audio stream look like, byte by byte.

use vstd::prelude::*;

use super::mp3::{checked, LameError, Mp3Encoder};
use super::opus::OpusEncoder;
use super::webm::{cluster, little_endian, size_2, WebmStreamMuxer};
use super::{answer, closing, follows, frame_message, marked_timestamp, message_of, run_step};
use super::run_trace;
use super::{AudioError, Codec, Encoder, RunActionView, RunEventView, Slot, Stream, StreamSettings};
use crate::data::{big_endian, overlaid};
use crate::messages::layout::{four, two};

verus! {

/// A number in eight bytes, the highest one first.
pub open spec fn eight(n: int) -> Seq<u8> {
    four(n / 4294967296) + four(n % 4294967296)
}

/// A number in two bytes, the lower one first.
pub open spec fn two_low_first(n: int) -> Seq<u8> {
    seq![(n % 256) as u8, (n / 256) as u8]
}

/// A number in four bytes, the lowest one first.
pub open spec fn four_low_first(n: int) -> Seq<u8> {
    two_low_first(n % 65536) + two_low_first(n / 65536)
}

/// An element of a WebM file: its identifier, its size and its body, which is shorter than 127
/// bytes.
pub open spec fn element(id: Seq<u8>, body: Seq<u8>) -> Seq<u8> {
    id + seq![(128 + body.len()) as u8] + body
}

/// An element of a WebM file: its identifier, its size in two bytes, and its body, which is shorter
/// than 16383 bytes.
pub open spec fn long_element(id: Seq<u8>, body: Seq<u8>) -> Seq<u8> {
    id + seq![(64 + body.len() / 256) as u8, (body.len() % 256) as u8] + body
}

/// A Cluster: its timestamp, and a block of track 1 with one frame, which has no offset to that
/// timestamp and is a keyframe.
pub open spec fn cluster_element(timestamp: u64, frame: Seq<u8>) -> Seq<u8> {
    long_element(
        seq![0x1fu8, 0x43u8, 0xb6u8, 0x75u8],
        element(seq![0xe7u8], eight(timestamp as int)) + long_element(
            seq![0xa3u8],
            seq![0x81u8, 0u8, 0u8, 0x80u8] + frame,
        ),
    )
}

/// The EBML header of a `webm` document.
pub open spec fn ebml_element() -> Seq<u8> {
    element(
        seq![0x1au8, 0x45u8, 0xdfu8, 0xa3u8],
        element(seq![0x42u8, 0x86u8], seq![1u8]) + element(seq![0x42u8, 0xf7u8], seq![1u8])
            + element(seq![0x42u8, 0xf2u8], seq![4u8]) + element(seq![0x42u8, 0xf3u8], seq![8u8])
            + element(seq![0x42u8, 0x82u8], seq![0x77u8, 0x65u8, 0x62u8, 0x6du8]) + element(
            seq![0x42u8, 0x87u8],
            seq![4u8],
        ) + element(seq![0x42u8, 0x85u8], seq![2u8]),
    )
}

/// The header of a segment of unknown size.
pub open spec fn segment_header() -> Seq<u8> {
    seq![
        0x18u8,
        0x53u8,
        0x80u8,
        0x67u8,
        1u8,
        255u8,
        255u8,
        255u8,
        255u8,
        255u8,
        255u8,
        255u8,
    ]
}

/// An entry of the SeekHead: an identifier, and the position of the element that has it.
pub open spec fn seek_element(id: Seq<u8>, position: int) -> Seq<u8> {
    element(
        seq![0x4du8, 0xbbu8],
        element(seq![0x53u8, 0xabu8], id) + element(seq![0x53u8, 0xacu8], seq![position as u8]),
    )
}

/// The SeekHead, with the positions of the Info, the Tracks and the first Cluster.
pub open spec fn seek_head_element(info: int, tracks: int, first_cluster: int) -> Seq<u8> {
    element(
        seq![0x11u8, 0x4du8, 0x9bu8, 0x74u8],
        seek_element(seq![0x15u8, 0x49u8, 0xa9u8, 0x66u8], info) + seek_element(
            seq![0x16u8, 0x54u8, 0xaeu8, 0x6bu8],
            tracks,
        ) + seek_element(seq![0x1fu8, 0x43u8, 0xb6u8, 0x75u8], first_cluster),
    )
}

/// `audiomux-v0.0.0`.
pub open spec fn application() -> Seq<u8> {
    seq![
        0x61u8,
        0x75u8,
        0x64u8,
        0x69u8,
        0x6fu8,
        0x6du8,
        0x75u8,
        0x78u8,
        0x2du8,
        0x76u8,
        0x30u8,
        0x2eu8,
        0x30u8,
        0x2eu8,
        0x30u8,
    ]
}

/// The Info: a million nanoseconds for each step of a timestamp, and the application, twice.
pub open spec fn info_element() -> Seq<u8> {
    element(
        seq![0x15u8, 0x49u8, 0xa9u8, 0x66u8],
        element(seq![0x2au8, 0xd7u8, 0xb1u8], seq![0x0fu8, 0x42u8, 0x40u8]) + element(
            seq![0x4du8, 0x80u8],
            application(),
        ) + element(seq![0x57u8, 0x41u8], application()),
    )
}

/// `A_OPUS`.
pub open spec fn codec_name() -> Seq<u8> {
    seq![0x41u8, 0x5fu8, 0x4fu8, 0x50u8, 0x55u8, 0x53u8]
}

/// The header of an Opus stream: `OpusHead`, version 1, the channels, the delay in samples, the
/// sample rate, no gain, and channel mapping family 0.
pub open spec fn opus_head(rate: u32, channels: u8, delay: int) -> Seq<u8> {
    seq![0x4fu8, 0x70u8, 0x75u8, 0x73u8, 0x48u8, 0x65u8, 0x61u8, 0x64u8] + seq![1u8, channels]
        + two_low_first(delay % 65536) + four_low_first(rate as int) + seq![0u8, 0u8, 0u8]
}

/// The Tracks: one audio track with an identifier, the codec and its delay in nanoseconds, and the
/// format, of 48000 samples in a second.
pub open spec fn tracks_element(track_uid: Seq<u8>, rate: u32, channels: u8, delay: int) -> Seq<
    u8,
> {
    element(
        seq![0x16u8, 0x54u8, 0xaeu8, 0x6bu8],
        element(
            seq![0xaeu8],
            element(seq![0xd7u8], seq![1u8]) + element(seq![0x73u8, 0xc5u8], track_uid) + element(
                seq![0x83u8],
                seq![2u8],
            ) + element(seq![0x86u8], codec_name()) + element(
                seq![0x56u8, 0xaau8],
                four((delay * 1000000000 / rate as int) % 4294967296),
            ) + element(seq![0x63u8, 0xa2u8], opus_head(rate, channels, delay)) + element(
                seq![0xe1u8],
                element(seq![0xb5u8], seq![0x47u8, 0x3bu8, 0x80u8, 0u8]) + element(
                    seq![0x9fu8],
                    seq![channels],
                ),
            ),
        ),
    )
}

proof fn lemma_big_endian_2(n: int)
    requires
        0 <= n <= 65535,
    ensures
        big_endian(n, 2) == two(n),
{
    reveal_with_fuel(big_endian, 3);
    assert(big_endian(n, 2) =~= two(n));
}

proof fn lemma_four_bytes(n: int)
    requires
        0 <= n,
    ensures
        ({
            let m = n % 4294967296;
            &&& m / 16777216 == (n / 256 / 256 / 256) % 256
            &&& (m / 65536) % 256 == (n / 256 / 256) % 256
            &&& (m / 256) % 256 == (n / 256) % 256
            &&& m % 256 == n % 256
        }),
{
    let a = n / 256;
    let b = a / 256;
    let c = b / 256;
    let d = c / 256;
    let m = (c % 256) * 16777216 + (b % 256) * 65536 + (a % 256) * 256 + n % 256;
    assert(n == d * 4294967296 + m);
    assert(n % 4294967296 == m);
}

proof fn lemma_big_endian_4(n: int)
    requires
        0 <= n,
    ensures
        big_endian(n, 4) == four(n % 4294967296),
{
    reveal_with_fuel(big_endian, 5);
    lemma_four_bytes(n);
    let all = big_endian(n, 4);
    assert(all.len() == 4);
    assert(all[3] == (n % 256) as u8);
    assert(all[2] == ((n / 256) % 256) as u8);
    assert(all[1] == ((n / 256 / 256) % 256) as u8);
    assert(all[0] == ((n / 256 / 256 / 256) % 256) as u8);
    assert(all =~= four(n % 4294967296));
}

proof fn lemma_big_endian_8(n: int)
    requires
        0 <= n <= u64::MAX,
    ensures
        big_endian(n, 8) == eight(n),
{
    reveal_with_fuel(big_endian, 9);
    let high = n / 4294967296;
    let low = n % 4294967296;
    lemma_big_endian_4(high);
    lemma_big_endian_4(n);
    assert(n / 256 / 256 / 256 / 256 == high);
    assert(big_endian(n, 8) =~= big_endian(high, 4) + big_endian(n, 4));
}

proof fn lemma_little_endian(n: int)
    requires
        0 <= n,
    ensures
        little_endian(n, 2) == two_low_first(n % 65536),
        n <= 4294967295 ==> little_endian(n, 4) == four_low_first(n),
{
    reveal_with_fuel(little_endian, 5);
    assert((n % 65536) % 256 == n % 256);
    assert((n % 65536) / 256 == (n / 256) % 256);
    assert(little_endian(n, 2) =~= two_low_first(n % 65536));
    if n <= 4294967295 {
        assert(n / 256 / 256 == n / 65536);
        assert(little_endian(n, 4) =~= four_low_first(n));
    }
}

proof fn lemma_size_2(n: int)
    requires
        0 <= n < 16384,
    ensures
        size_2(n) == seq![(64 + n / 256) as u8, (n % 256) as u8],
{
    let high: u8 = ((n / 0x100) % 0x100) as u8;
    assert(high < 0x40 ==> 0x40u8 | high == high + 0x40) by (bit_vector);
    assert(size_2(n) =~= seq![(64 + n / 256) as u8, (n % 256) as u8]);
}

/// A frame is put into a Cluster with its timestamp, whole, as long as it is short enough for its
/// length to be written down.
#[verifier::spinoff_prover]
#[verifier::rlimit(60)]
pub proof fn law_cluster_format(frame: Seq<u8>, timestamp: u64)
    requires
        frame.len() + 17 < 16384,
    ensures
        cluster(frame, timestamp) == cluster_element(timestamp, frame),
        cluster(frame, timestamp).len() == frame.len() + 23,
{
    let n = frame.len() as int;
    lemma_size_2(n + 17);
    lemma_size_2(n + 4);
    lemma_big_endian_8(timestamp as int);
    let block = long_element(seq![0xa3u8], seq![0x81u8, 0u8, 0u8, 0x80u8] + frame);
    assert(block.len() == n + 7);
    let stamp = element(seq![0xe7u8], eight(timestamp as int));
    assert(stamp.len() == 10);
    assert(cluster(frame, timestamp) =~= cluster_element(timestamp, frame));
}

/// A file starts with the EBML header, the header of the segment, a SeekHead with the positions of
/// what follows, the Info and the Tracks. The positions are counted from the end of the header of
/// the segment. The track has the given identifier, and the codec's number of channels and delay.
#[verifier::spinoff_prover]
#[verifier::rlimit(60)]
pub proof fn law_file_format(muxer: WebmStreamMuxer, track_uid: Seq<u8>)
    requires
        track_uid.len() == 7,
        muxer.sample_rate > 0,
    ensures
        ({
            let delay = muxer.internal_delay as int;
            let info = info_element();
            let tracks = tracks_element(track_uid, muxer.sample_rate, muxer.channels, delay);
            let seek_head = seek_head_element(
                47,
                47 + info.len() as int,
                47 + info.len() as int + tracks.len() as int,
            );
            &&& seek_head.len() == 47
            &&& muxer.initialization_segment(track_uid) == ebml_element() + segment_header()
                + seek_head + info + tracks
            &&& muxer.initialization_segment(track_uid).len() == 214
        }),
{
    let delay = muxer.internal_delay as int;
    let info = info_element();
    let tracks = tracks_element(track_uid, muxer.sample_rate, muxer.channels, delay);
    lemma_tracks_format(muxer, track_uid);
    lemma_info_format(muxer);
    assert(super::webm::EBML_HEADER@ =~= ebml_element());
    assert(super::webm::SEGMENT_HEADER@ =~= segment_header());
    lemma_seek_head_format();
    assert(muxer.initialization_segment(track_uid) =~= ebml_element() + segment_header()
        + seek_head_element(47, 95, 166) + info + tracks);
    assert(ebml_element().len() == 36);
}

proof fn lemma_seek_head_format()
    ensures
        super::webm::SEEK_HEAD@ == seek_head_element(47, 95, 166),
        seek_head_element(47, 95, 166).len() == 47,
{
    assert(super::webm::SEEK_HEAD@ =~= seek_head_element(47, 95, 166));
}

proof fn lemma_info_format(muxer: WebmStreamMuxer)
    ensures
        muxer.info() == info_element(),
        info_element().len() == 48,
{
    assert(muxer.info() =~= info_element());
}

#[verifier::spinoff_prover]
#[verifier::rlimit(60)]
proof fn lemma_tracks_format(muxer: WebmStreamMuxer, track_uid: Seq<u8>)
    requires
        track_uid.len() == 7,
        muxer.sample_rate > 0,
    ensures
        muxer.tracks(track_uid) == tracks_element(
            track_uid,
            muxer.sample_rate,
            muxer.channels,
            muxer.internal_delay as int,
        ),
        muxer.tracks(track_uid).len() == 71,
{
    let delay = muxer.internal_delay as int;
    let rate = muxer.sample_rate as int;
    assert(0 <= delay * 1000000000 / rate) by (nonlinear_arith)
        requires
            0 <= delay,
            0 < rate,
    ;
    lemma_big_endian_4(muxer.codec_delay_ns());
    lemma_little_endian(delay);
    lemma_little_endian(rate);
    let head = opus_head(muxer.sample_rate, muxer.channels, delay);
    assert(head.len() == 19);
    assert(muxer.tracks(track_uid) =~= tracks_element(
        track_uid,
        muxer.sample_rate,
        muxer.channels,
        delay,
    ));
}

/// A message with a frame: its type, the length of what follows, the timestamp in milliseconds,
/// whose highest bit is set for a keyframe instead, and the data.
pub open spec fn message_bytes(timestamp: u64, keyframe: bool, data: Seq<u8>) -> Seq<u8> {
    seq![245u8, 1u8] + two(4 + data.len() as int) + four(
        timestamp % 2147483648 + if keyframe {
            2147483648int
        } else {
            0
        },
    ) + data
}

proof fn lemma_message_bytes(timestamp: u64, keyframe: bool, data: Seq<u8>)
    requires
        data.len() + 4 <= 65535,
    ensures
        frame_message(timestamp, keyframe, data) == message_bytes(timestamp, keyframe, data),
{
    let marked = marked_timestamp(timestamp, keyframe);
    lemma_big_endian_4(marked);
    lemma_big_endian_2(4 + data.len() as int);
    assert((four(marked) + data).len() == data.len() + 4);
    assert(frame_message(timestamp, keyframe, data) =~= message_bytes(timestamp, keyframe, data));
}

/// A packet is put into a Cluster with the timestamp of its frame, behind the start of the file if
/// it is the first one. That is so for every packet whose length can be written down.
pub proof fn law_opus_frames(enc: OpusEncoder, track_uid: Seq<u8>, packet: Seq<u8>, timestamp: u64)
    requires
        packet.len() + 17 < 16384,
    ensures
        enc.wrote_initialization_segment ==> enc.contained(track_uid, packet, timestamp)
            == cluster_element(timestamp, packet),
        !enc.wrote_initialization_segment ==> enc.contained(track_uid, packet, timestamp)
            == enc.muxer.initialization_segment(track_uid) + cluster_element(timestamp, packet),
        enc.started() == (OpusEncoder { wrote_initialization_segment: true, ..enc }),
{
    law_cluster_format(packet, timestamp);
    assert(Seq::<u8>::empty() + cluster(packet, timestamp) =~= cluster(packet, timestamp));
}

/// The message for an Opus packet has the timestamp of the stream twice: in its header, and in the
/// Cluster that it ends with, which holds the packet. Only the first message of a stream is marked
/// as a keyframe; in front of the Cluster it has the start of the file. Every packet of up to 4000
/// bytes gets its message; where the codec failed, or the packet is too long, there is none.
#[verifier::spinoff_prover]
#[verifier::rlimit(60)]
pub proof fn law_opus_messages(
    stream: Stream,
    enc: OpusEncoder,
    track_uid: Seq<u8>,
    packet: Seq<u8>,
)
    requires
        stream.enc == Encoder::Opus(enc),
        track_uid.len() == 7,
        enc.muxer.sample_rate > 0,
    ensures
        ({
            let first = !enc.wrote_initialization_segment;
            let start = if first {
                enc.muxer.initialization_segment(track_uid)
            } else {
                Seq::empty()
            };
            let made = stream.encoded(track_uid, Some(packet));
            &&& packet.len() + 23 + start.len() <= 4504 ==> made == Ok::<_, AudioError>(
                message_bytes(
                    stream.timestamp,
                    first,
                    start + cluster_element(stream.timestamp, packet),
                ),
            )
            &&& packet.len() + 23 + start.len() > 4504 ==> made == Err::<Seq<u8>, _>(
                AudioError::OutputTooShort,
            )
            &&& stream.encoded(track_uid, None) == Err::<Seq<u8>, _>(AudioError::Codec)
            &&& packet.len() <= 4000 ==> made is Ok
            &&& first ==> start.len() == 214
            &&& stream.enc.started() == Encoder::Opus(
                OpusEncoder { wrote_initialization_segment: true, ..enc },
            )
        }),
{
    law_file_format(enc.muxer, track_uid);
    let first = !enc.wrote_initialization_segment;
    let start = if first {
        enc.muxer.initialization_segment(track_uid)
    } else {
        Seq::empty()
    };
    let c = cluster(packet, stream.timestamp);
    lemma_cluster_len(packet, stream.timestamp);
    let data = enc.contained(track_uid, packet, stream.timestamp);
    assert(data =~= start + c);
    if packet.len() + 23 + start.len() <= 4504 {
        law_cluster_format(packet, stream.timestamp);
        lemma_message_bytes(stream.timestamp, first, data);
    }
}

proof fn lemma_cluster_len(frame: Seq<u8>, timestamp: u64)
    ensures
        cluster(frame, timestamp).len() == frame.len() + 23,
{
    crate::data::lemma_big_endian_len(timestamp as int, 8);
}

/// The timestamp in the Cluster of an Opus message and the one in the header of the message agree:
/// the last bytes before the block are the eight bytes of the stream's timestamp, and the header
/// has the lowest 31 bits of it.
pub proof fn law_opus_timestamps_agree(
    stream: Stream,
    enc: OpusEncoder,
    track_uid: Seq<u8>,
    packet: Seq<u8>,
)
    requires
        stream.enc == Encoder::Opus(enc),
        track_uid.len() == 7,
        enc.muxer.sample_rate > 0,
        packet.len() <= 4000,
    ensures
        stream.encoded(track_uid, Some(packet)) matches Ok(message) && ({
            let n = message.len() - packet.len();
            &&& message.subrange(n - 15, n - 7) == eight(stream.timestamp as int)
            &&& message.skip(n) == packet
            &&& (message[4] % 128) * 16777216 + message[5] * 65536 + message[6] * 256 + message[7]
                == stream.timestamp % 2147483648
            &&& message[4] >= 128 <==> !enc.wrote_initialization_segment
        }),
{
    law_opus_messages(stream, enc, track_uid, packet);
    let first = !enc.wrote_initialization_segment;
    let start = if first {
        enc.muxer.initialization_segment(track_uid)
    } else {
        Seq::empty()
    };
    law_cluster_format(packet, stream.timestamp);
    lemma_parts_of_message(stream.timestamp, first, start, packet);
}

#[verifier::spinoff_prover]
#[verifier::rlimit(60)]
proof fn lemma_parts_of_message(timestamp: u64, keyframe: bool, start: Seq<u8>, packet: Seq<u8>)
    ensures
        ({
            let data = start + cluster_element(timestamp, packet);
            let message = message_bytes(timestamp, keyframe, data);
            let n = message.len() - packet.len();
            &&& message.subrange(n - 15, n - 7) == eight(timestamp as int)
            &&& message.skip(n) == packet
            &&& (message[4] % 128) * 16777216 + message[5] * 65536 + message[6] * 256 + message[7]
                == timestamp % 2147483648
            &&& message[4] >= 128 <==> keyframe
        }),
{
    let c = cluster_element(timestamp, packet);
    let data = start + c;
    let message = message_bytes(timestamp, keyframe, data);
    let n = message.len() - packet.len();
    let stamp = element(seq![0xe7u8], eight(timestamp as int));
    let block = seq![0x81u8, 0u8, 0u8, 0x80u8] + packet;
    let contents = stamp + long_element(seq![0xa3u8], block);
    assert(c.len() == 23 + packet.len());
    assert(c.skip(6) =~= contents);
    assert(c.subrange(8, 16) =~= contents.subrange(2, 10));
    assert(contents.subrange(2, 10) =~= stamp.subrange(2, 10));
    assert(stamp.subrange(2, 10) =~= eight(timestamp as int));
    assert(message.skip(8) =~= data);
    assert(message.subrange(n - 15, n - 7) =~= c.subrange(8, 16));
    assert(message.skip(n) =~= c.skip(23));
    assert(c.skip(23) =~= packet);
    lemma_header_timestamp(timestamp, keyframe);
    let marked = four(
        timestamp % 2147483648 + if keyframe {
            2147483648int
        } else {
            0
        },
    );
    assert(message[4] == marked[0]);
    assert(message[5] == marked[1]);
    assert(message[6] == marked[2]);
    assert(message[7] == marked[3]);
}

proof fn lemma_header_timestamp(timestamp: u64, keyframe: bool)
    ensures
        ({
            let marked = four(
                timestamp % 2147483648 + if keyframe {
                    2147483648int
                } else {
                    0
                },
            );
            &&& (marked[0] % 128) * 16777216 + marked[1] * 65536 + marked[2] * 256 + marked[3]
                == timestamp % 2147483648
            &&& marked[0] >= 128 <==> keyframe
        }),
{
    let low = (timestamp % 2147483648) as int;
    let n = low + if keyframe {
        2147483648int
    } else {
        0
    };
    let a = n / 256;
    let b = a / 256;
    let c = b / 256;
    assert(n / 65536 == b);
    assert(n / 16777216 == c);
    assert(n == c * 16777216 + (b % 256) * 65536 + (a % 256) * 256 + n % 256);
}

/// The message for an MP3 packet holds the packet as it is, and is always marked as a keyframe. A
/// packet that is longer than a message can say gets none.
pub proof fn law_mp3_messages(stream: Stream, track_uid: Seq<u8>, packet: Seq<u8>)
    requires
        stream.enc is Mp3,
    ensures
        ({
            let made = stream.encoded(track_uid, Some(packet));
            &&& packet.len() <= 65531 ==> made == Ok::<_, AudioError>(
                message_bytes(stream.timestamp, true, packet),
            )
            &&& 65531 < packet.len() <= 2212192 ==> made == Err::<Seq<u8>, _>(
                AudioError::PayloadTooLong((packet.len() + 4) as usize),
            )
            &&& packet.len() > 2212192 ==> made == Err::<Seq<u8>, _>(AudioError::OutputTooShort)
            &&& stream.encoded(track_uid, None) == Err::<Seq<u8>, _>(AudioError::Codec)
            &&& stream.enc.started() == stream.enc
        }),
{
    if packet.len() <= 65531 {
        lemma_message_bytes(stream.timestamp, true, packet);
    }
}

/// A frame is 40 milliseconds later than the one before it, or at the time at which it was read if
/// that is later still. The first one is at the time at which it was read.
pub proof fn law_timestamps(
    stream: Stream,
    settings: StreamSettings,
    delay: usize,
    elapsed_ms: u64,
    track_uid: Option<Seq<u8>>,
)
    ensures
        ({
            let (after, action) = run_step(stream, RunEventView::Read(elapsed_ms), track_uid);
            &&& action is Reserve
            &&& stream.timestamp + 40 <= u64::MAX ==> after == (Stream {
                timestamp: if stream.timestamp + 40 < elapsed_ms {
                    elapsed_ms
                } else {
                    (stream.timestamp + 40) as u64
                },
                ..stream
            })
        }),
        ({
            let first = Stream::started_with(settings, delay);
            &&& run_step(first, RunEventView::Read(elapsed_ms), track_uid).0.timestamp == elapsed_ms
            &&& first.dropped_frames == 0
        }),
{
}

/// The message that ends continuous updates, and the answers to requests.
pub proof fn law_answers(submessage: u8)
    ensures
        closing() == seq![245u8, 2u8, 0u8, 1u8, 0u8],
        answer(submessage, true) == seq![245u8, submessage, 0u8, 1u8, 1u8],
        answer(submessage, false) == seq![245u8, submessage, 0u8, 1u8, 0u8],
{
    lemma_big_endian_2(1);
    assert(answer(submessage, true) =~= seq![245u8, submessage, 0u8, 1u8, 1u8]);
    assert(answer(submessage, false) =~= seq![245u8, submessage, 0u8, 1u8, 0u8]);
    assert(answer(2, false) =~= seq![245u8, 2u8, 0u8, 1u8, 0u8]);
}

/// Continuous updates go round: as long as the client wants frames, one is read, and if there is
/// room for a message it is encoded and sent; if there is none, it is counted as dropped. Then it
/// is seen again whether the client wants frames. Everything else ends the updates, with a message
/// that says so.
pub proof fn law_updates_go_round(
    stream: Stream,
    track_uid: Option<Seq<u8>>,
    packet: Option<Seq<u8>>,
    message: Seq<u8>,
)
    ensures
        ({
            let step = |event: RunEventView| run_step(stream, event, track_uid);
            let over = RunActionView::Finish(seq![245u8, 2u8, 0u8, 1u8, 0u8]);
            let begun = Stream { enc: stream.enc.started(), ..stream };
            &&& step(RunEventView::Wanted(true)) == (stream, RunActionView::Read)
            &&& step(RunEventView::Wanted(false)) == (stream, over)
            &&& step(RunEventView::ReadFailed) == (stream, over)
            &&& step(RunEventView::Reserved(Slot::Free)) == (stream, RunActionView::Encode)
            &&& step(RunEventView::Reserved(Slot::Closed)) == (stream, over)
            &&& step(RunEventView::Reserved(Slot::Full)).1 is Poll
            &&& stream.dropped_frames < u64::MAX ==> step(RunEventView::Reserved(Slot::Full)).0 == (
            Stream { dropped_frames: (stream.dropped_frames + 1) as u64, ..stream })
            &&& (track_uid matches Some(uid) && stream.encoded(uid, packet) == Ok::<_, AudioError>(
                message,
            )) ==> step(RunEventView::Packet(packet)) == (begun, RunActionView::Send(message))
            &&& (track_uid matches Some(uid) && stream.encoded(uid, packet) is Err) ==> step(
                RunEventView::Packet(packet),
            ) == (begun, over)
            &&& track_uid is None && stream.enc is Opus && stream.enc.at_keyframe() ==> step(
                RunEventView::Packet(packet),
            ) == (begun, over)
            &&& track_uid is None && !(stream.enc is Opus && stream.enc.at_keyframe())
                ==> match stream.encoded(Seq::empty(), packet) {
                Ok(m) => step(RunEventView::Packet(packet)) == (begun, RunActionView::Send(m)),
                Err(_) => step(RunEventView::Packet(packet)) == (begun, over),
            }
            &&& run_trace(stream, Seq::empty()) == Some(
                (stream, RunActionView::Poll, Seq::<Seq<u8>>::empty()),
            )
        }),
{
    law_answers(2);
}

/// A client that wants frames gets them: after each round of seeing that it does, reading a frame,
/// finding room and encoding, its message has been sent, behind those of the rounds before.
pub proof fn law_frames_get_through(
    stream: Stream,
    earlier: Seq<(RunEventView, Option<Seq<u8>>)>,
    elapsed_ms: u64,
    track_uid: Seq<u8>,
    packet: Seq<u8>,
)
    requires
        run_trace(stream, earlier) matches Some((before, action, _)) && (action is Poll
            || action is Send),
    ensures
        run_trace(stream, earlier) matches Some((before, _, sent)) && ({
            let read = run_step(before, RunEventView::Read(elapsed_ms), None).0;
            let round = earlier.push((RunEventView::Wanted(true), None)).push(
                (RunEventView::Read(elapsed_ms), None),
            ).push((RunEventView::Reserved(Slot::Free), None)).push(
                (RunEventView::Packet(Some(packet)), Some(track_uid)),
            );
            read.encoded(track_uid, Some(packet)) matches Ok(message) ==> run_trace(stream, round)
                == Some(
                (
                    Stream { enc: read.enc.started(), ..read },
                    RunActionView::Send(message),
                    sent.push(message),
                ),
            )
        }),
{
    let e1 = earlier.push((RunEventView::Wanted(true), None));
    let e2 = e1.push((RunEventView::Read(elapsed_ms), None));
    let e3 = e2.push((RunEventView::Reserved(Slot::Free), None));
    lemma_one_more_event(stream, earlier, RunEventView::Wanted(true), None);
    lemma_one_more_event(stream, e1, RunEventView::Read(elapsed_ms), None);
    lemma_one_more_event(stream, e2, RunEventView::Reserved(Slot::Free), None);
    lemma_one_more_event(stream, e3, RunEventView::Packet(Some(packet)), Some(track_uid));
}

proof fn lemma_one_more_event(
    stream: Stream,
    earlier: Seq<(RunEventView, Option<Seq<u8>>)>,
    event: RunEventView,
    track_uid: Option<Seq<u8>>,
)
    ensures
        run_trace(stream, earlier) matches Some((before, action, sent)) ==> (follows(action, event)
            ==> ({
            let (after, next) = run_step(before, event, track_uid);
            run_trace(stream, earlier.push((event, track_uid))) == Some(
                (
                    after,
                    next,
                    match next {
                        RunActionView::Send(message) => sent.push(message),
                        RunActionView::Finish(message) => sent.push(message),
                        _ => sent,
                    },
                ),
            )
        })),
{
    let events = earlier.push((event, track_uid));
    assert(events.drop_last() =~= earlier);
    match run_trace(stream, earlier) {
        Some((before, action, sent)) => {
            let (after, next) = run_step(before, event, track_uid);
            match next {
                RunActionView::Send(message) => {
                    assert(sent + message_of(next) =~= sent.push(message));
                },
                RunActionView::Finish(message) => {
                    assert(sent + message_of(next) =~= sent.push(message));
                },
                _ => {
                    assert(sent + message_of(next) =~= sent);
                },
            }
        },
        None => {},
    }
}

/// There are two codecs, 0 and 1, of one or two channels each: Opus, of 48000 samples in a second,
/// and MP3, of 44100. A request for anything else is refused for its codec first. A frame lasts 40
/// milliseconds with both. A stream that is granted has the codec, the channels and the delay that
/// it was asked for with, and starts with a keyframe.
pub proof fn law_requests_for_streams(channels: u8, codec: u16, kbps: u16, delay: usize)
    ensures
        ({
            let asked = StreamSettings::requested(channels, codec, kbps);
            let granted = codec <= 1 && 1 <= channels <= 2;
            &&& granted ==> asked == Ok::<_, AudioError>(
                StreamSettings {
                    codec: if codec == 0 {
                        Codec::Opus
                    } else {
                        Codec::Mp3
                    },
                    channels,
                    kbps,
                },
            )
            &&& codec > 1 ==> asked == Err::<StreamSettings, _>(AudioError::UnsupportedCodec(codec))
            &&& codec <= 1 && !granted ==> asked == Err::<StreamSettings, _>(
                AudioError::InvalidChannels(channels),
            )
            &&& asked matches Ok(settings) ==> Stream::started_with(settings, delay).enc == (
            if codec == 0 {
                Encoder::Opus(
                    OpusEncoder {
                        muxer: WebmStreamMuxer {
                            sample_rate: 48000,
                            channels,
                            internal_delay: delay,
                        },
                        wrote_initialization_segment: false,
                    },
                )
            } else {
                Encoder::Mp3(Mp3Encoder { channels, kbps })
            }) && Stream::started_with(settings, delay).enc.at_keyframe()
        }),
        Codec::Opus.rate() == 48000,
        Codec::Mp3.rate() == 44100,
        Codec::Opus.frame_len() == 40,
        Codec::Mp3.frame_len() == 40,
        Codec::Opus.max_len() == 4512,
        Codec::Mp3.max_len() == 2212200,
        super::webm::TRACK_UID_LENGTH == 7,
        super::opus::KILOBYTE == 1024,
        super::opus::MAX_PACKET_LEN == 4000,
        super::mp3::INTERNAL_DELAY == 576,
        super::mp3::QUALITY == 7,
{
}

/// What the numbers of the MP3 codec mean: those that are not negative are results, and each
/// negative one is an error.
pub proof fn law_codec_errors(num: i32)
    ensures
        num >= 0 ==> checked(num) == Ok::<_, LameError>(num),
        num == -1 ==> checked(num) == Err::<i32, _>(LameError::Generic),
        num == -10 ==> checked(num) == Err::<i32, _>(LameError::OutOfMemory),
        num == -11 ==> checked(num) == Err::<i32, _>(LameError::BadBitrate),
        num == -12 ==> checked(num) == Err::<i32, _>(LameError::BadSampleRate),
        num == -13 ==> checked(num) == Err::<i32, _>(LameError::Internal),
        num == -80 ==> checked(num) == Err::<i32, _>(LameError::FrontendRead),
        num == -81 ==> checked(num) == Err::<i32, _>(LameError::FrontendWrite),
        num == -82 ==> checked(num) == Err::<i32, _>(LameError::FrontendFileTooLarge),
        num < 0 && num != -1 && !(-13 <= num <= -10) && !(-82 <= num <= -80) ==> checked(num)
            == Err::<i32, _>(LameError::Unknown(num)),
{
}

/// A buffer that is written to keeps its length: data that fits is at its start, with what was
/// there before behind it; of data that does not fit there is as much as fits.
pub proof fn law_buffers_are_overwritten(output: Seq<u8>, data: Seq<u8>)
    ensures
        overlaid(output, data).len() == output.len(),
        forall|i: int|
            0 <= i < output.len() ==> #[trigger] overlaid(output, data)[i] == (if i < data.len() {
                data[i]
            } else {
                output[i]
            }),
{
}

} // verus!
