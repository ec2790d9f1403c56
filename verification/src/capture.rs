//! Fingerprinting the first two minutes of a decoded audio stream.

use crate::chroma::{
    algorithm_of, compressed, fed_samples, is_fingerprint_text, is_outcome, new_fingerprinter,
    refusal_of, stream_format, sub_fingerprints, Refusal, DEFAULT_ALGORITHM, MAX_SAMPLE_RATE,
};
use crate::pcm::{
    decoding_is_independent_of_the_split, odd_byte, samples_give_back_the_stream, samples_of,
    PcmDecoder,
};
use crate::text::texts_of;
use vstd::prelude::*;
use vstd::slice::slice_subrange;

verus! {

/// How much of a stream is fingerprinted, in seconds.
pub const MAX_SECONDS: u32 = 120;

/// The sample rate that the external decoder is asked for.
pub const SAMPLE_RATE: u32 = 44_100;

/// The number of channels that the external decoder is asked for.
pub const CHANNELS: u16 = 2;

/// How many samples of the external decoder's output are used: those of `MAX_SECONDS`.
pub const MAX_SAMPLES: u32 = 10_584_000;

/// How many samples make up `MAX_SECONDS` of a stream.
pub open spec fn sample_limit(sample_rate: u32, channels: usize) -> int {
    MAX_SECONDS * sample_rate * (channels as u32)
}

/// By how much a packet of `len` samples raises the 32-bit sample count.
pub open spec fn counted(len: nat) -> int {
    (len as u32) as int
}

/// The samples without those of a frame that breaks off at the end.
pub open spec fn whole_frames(samples: Seq<i16>, channels: nat) -> Seq<i16> {
    samples.take(samples.len() - samples.len() % channels)
}

/// The samples of a frame that breaks off at the end.
pub open spec fn broken_frame(samples: Seq<i16>, channels: nat) -> Seq<i16> {
    samples.skip(samples.len() - samples.len() % channels)
}

/// A fingerprinter that was started, and the samples of a frame that is not complete yet.
struct Session {
    fp: chromaprint::Fingerprinter,
    rest: Vec<i16>,
    channels: u16,
}

impl Session {
    spec fn inv(&self) -> bool {
        &&& self.channels != 0
        &&& algorithm_of(self.fp) == DEFAULT_ALGORITHM
        &&& stream_format(self.fp) matches Some((_, channels)) && channels == self.channels
    }

    /// Starts a fingerprinter, unless it refuses the format.
    fn start(sample_rate: u32, channels: u16) -> (r: Result<Session, chromaprint::Error>)
        requires
            channels != 0 ==> sample_rate <= MAX_SAMPLE_RATE,
        ensures
            (r is Ok) == (channels != 0 && sample_rate > 1000),
            r matches Err(error) ==> refusal_of(error) == refusal(sample_rate, channels),
            r matches Ok(session) ==> {
                &&& session.inv()
                &&& session.rest@ == Seq::<i16>::empty()
                &&& stream_format(session.fp) == Some((sample_rate, channels))
                &&& fed_samples(session.fp) == Seq::<i16>::empty()
                &&& sub_fingerprints(session.fp) == Seq::<u32>::empty()
            },
    {
        let mut fp = new_fingerprinter();
        match fp.start(sample_rate, channels) {
            Ok(_) => Ok(Session { fp, rest: Vec::new(), channels }),
            Err(error) => Err(error),
        }
    }

    /// Feeds the frames that `samples` complete, and keeps the samples of a frame that breaks
    /// off for the next call.
    fn feed(&mut self, samples: &[i16])
        requires
            old(self).inv(),
        ensures
            final(self).inv(),
            final(self).channels == old(self).channels,
            stream_format(final(self).fp) == stream_format(old(self).fp),
            fed_samples(final(self).fp) == fed_samples(old(self).fp) + whole_frames(
                old(self).rest@ + samples@,
                old(self).channels as nat,
            ),
            final(self).rest@ == broken_frame(
                old(self).rest@ + samples@,
                old(self).channels as nat,
            ),
    {
        let channels: usize = self.channels as usize;
        let ghost all = self.rest@ + samples@;
        self.rest.extend_from_slice(samples);
        assert(self.rest@ =~= all);
        proof {
            vstd::arithmetic::div_mod::lemma_mod_decreases(all.len(), channels as nat);
            frames_are_whole(all, channels as nat);
        }
        let len: usize = self.rest.len() - self.rest.len() % channels;
        let rest: Vec<i16> = self.rest.split_off(len);
        let _ = self.fp.feed(self.rest.as_slice());
        self.rest = rest;
    }

    /// Works off what is buffered and returns the text of the fingerprint. A frame that is not
    /// complete is left out.
    fn finish(&mut self) -> (text: String)
        requires
            old(self).inv(),
        ensures
            final(self).inv(),
            final(self).channels == old(self).channels,
            final(self).rest@ == old(self).rest@,
            stream_format(final(self).fp) == stream_format(old(self).fp),
            fed_samples(final(self).fp) == fed_samples(old(self).fp),
            is_outcome(
                DEFAULT_ALGORITHM,
                stream_format(final(self).fp)->0,
                fed_samples(final(self).fp),
                sub_fingerprints(final(self).fp),
            ),
            text@ == compressed(DEFAULT_ALGORITHM, sub_fingerprints(final(self).fp)),
            is_fingerprint_text(text@),
    {
        let _ = self.fp.finish();
        self.fp.encode()
    }
}

/// What is left of samples without a broken frame are whole frames.
proof fn frames_are_whole(samples: Seq<i16>, channels: nat)
    requires
        channels > 0,
    ensures
        whole_frames(samples, channels).len() % channels == 0,
        broken_frame(samples, channels).len() < channels,
        whole_frames(samples, channels) + broken_frame(samples, channels) == samples,
{
    let n = samples.len() as int;
    let c = channels as int;
    vstd::arithmetic::div_mod::lemma_mod_bound(n, c);
    vstd::arithmetic::div_mod::lemma_mod_decreases(samples.len(), channels);
    vstd::arithmetic::div_mod::lemma_fundamental_div_mod(n, c);
    vstd::arithmetic::div_mod::lemma_mod_multiples_basic(n / c, c);
    assert(c * (n / c) == (n / c) * c) by (nonlinear_arith);
    assert(whole_frames(samples, channels) + broken_frame(samples, channels) =~= samples);
}

/// Whole frames in front are kept as they are.
proof fn frames_in_front_are_kept(front: Seq<i16>, samples: Seq<i16>, channels: nat)
    requires
        channels > 0,
        front.len() % channels == 0,
    ensures
        whole_frames(front + samples, channels) == front + whole_frames(samples, channels),
        broken_frame(front + samples, channels) == broken_frame(samples, channels),
{
    let c = channels as int;
    vstd::arithmetic::div_mod::lemma_add_mod_noop(front.len() as int, samples.len() as int, c);
    vstd::arithmetic::div_mod::lemma_mod_twice(samples.len() as int, c);
    vstd::arithmetic::div_mod::lemma_mod_decreases(samples.len(), channels);
    assert((front + samples).len() % channels == samples.len() % channels);
    assert(whole_frames(front + samples, channels) =~= front + whole_frames(samples, channels));
    assert(broken_frame(front + samples, channels) =~= broken_frame(samples, channels));
}

/// What of a format is refused that the fingerprinter does not take.
pub open spec fn refusal(sample_rate: u32, channels: u16) -> Refusal {
    if channels == 0 {
        Refusal::Channels(channels)
    } else {
        Refusal::SampleRate(sample_rate)
    }
}

/// Why a stream of a demuxed file cannot be fingerprinted.
pub enum StreamError {
    /// The track does not say its sample rate.
    NoRate,
    /// The track does not say its channels.
    NoChannels,
    /// The fingerprinter does not take the format.
    Rejected(chromaprint::Error),
}

/// Whether a track can be fingerprinted, given what it says of its format.
pub open spec fn is_accepted(sample_rate: Option<u32>, channels: Option<usize>) -> bool {
    sample_rate is Some && channels is Some && channels->0 as u16 != 0 && sample_rate->0 > 1000
}

/// Whether the arithmetic on a stream's format stays in range: that of the resampler, and that
/// of the sample limit.
pub open spec fn format_in_range(sample_rate: u32, channels: usize) -> bool {
    (channels as u16) != 0 ==> {
        &&& sample_rate <= MAX_SAMPLE_RATE
        &&& sample_rate > 1000 ==> sample_limit(sample_rate, channels) <= u32::MAX
    }
}

/// Whether a stream's format can be handed to `NativeCapture::start`.
pub fn is_format_in_range(sample_rate: u32, channels: usize) -> (r: bool)
    ensures
        r == format_in_range(sample_rate, channels),
{
    if channels as u16 == 0 {
        return true;
    }
    if sample_rate > MAX_SAMPLE_RATE {
        return false;
    }
    let per_channel: u64 = 120u64 * sample_rate as u64;
    let count: u32 = channels as u32;
    assert(per_channel * count <= u64::MAX) by (nonlinear_arith)
        requires
            per_channel <= 120 * MAX_SAMPLE_RATE,
            MAX_SAMPLE_RATE == 8_388_607,
            count <= u32::MAX,
    ;
    let limit: u64 = per_channel * count as u64;
    assert(limit == sample_limit(sample_rate, channels)) by {
        assert(MAX_SECONDS * sample_rate == per_channel) by (nonlinear_arith)
            requires
                MAX_SECONDS == 120,
                per_channel == 120 * sample_rate,
        ;
    }
    sample_rate <= 1000 || limit <= u32::MAX as u64
}

/// Whether `track` is the one to be fingerprinted, given of each track whether its codec is known.
pub open spec fn is_audio_track(codec_known: Seq<bool>, track: Option<usize>) -> bool {
    match track {
        Some(i) => {
            &&& i < codec_known.len()
            &&& codec_known[i as int]
            &&& forall|j: int| 0 <= j < i ==> !#[trigger] codec_known[j]
        },
        None => forall|j: int| 0 <= j < codec_known.len() ==> !#[trigger] codec_known[j],
    }
}

/// The track of a demuxed file that is fingerprinted, given of each track whether its codec is
/// known: the first one whose codec is. There may be none.
pub fn audio_track(codec_known: &[bool]) -> (r: Option<usize>)
    ensures
        is_audio_track(codec_known@, r),
        match r {
            Some(i) => {
                &&& i < codec_known@.len()
                &&& codec_known@[i as int]
                &&& forall|j: int| 0 <= j < i ==> !#[trigger] codec_known@[j]
            },
            None => forall|j: int| 0 <= j < codec_known@.len() ==> !#[trigger] codec_known@[j],
        },
{
    let mut i: usize = 0;
    while i < codec_known.len()
        invariant
            i <= codec_known.len(),
            forall|j: int| 0 <= j < i ==> !#[trigger] codec_known@[j],
        decreases codec_known.len() - i,
    {
        if codec_known[i] {
            return Some(i);
        }
        i = i + 1;
    }
    None
}

/// A fingerprint being taken of a stream that is decoded packet by packet in this process.
pub struct NativeCapture {
    session: Session,
    max_samples: u32,
    total_samples: u32,
}

/// What a capture of decoded packets amounts to.
pub ghost struct NativeView {
    /// The samples that the fingerprinter was fed.
    pub fed: Seq<i16>,
    /// The samples kept of a frame that is not complete yet.
    pub rest: Seq<i16>,
    /// The number of channels of the stream.
    pub channels: nat,
    /// The number of samples after which no more are wanted.
    pub max: int,
    /// The number of samples received.
    pub total: int,
}

impl NativeView {
    /// A capture of a track of the given format that has received nothing.
    pub open spec fn start(sample_rate: u32, channels: usize) -> NativeView {
        NativeView {
            fed: seq![],
            rest: seq![],
            channels: channels as u16 as nat,
            max: sample_limit(sample_rate, channels),
            total: 0,
        }
    }

    /// Whether a packet of `len` samples can be counted.
    pub open spec fn has_room_for(self, len: nat) -> bool {
        self.total + counted(len) <= u32::MAX
    }

    /// Whether the next packet is still to be fed.
    pub open spec fn wants_more(self) -> bool {
        self.total < self.max
    }

    /// The capture once a packet was fed.
    pub open spec fn after(self, packet: Seq<i16>) -> NativeView {
        NativeView {
            fed: self.fed + whole_frames(self.rest + packet, self.channels),
            rest: broken_frame(self.rest + packet, self.channels),
            total: self.total + counted(packet.len()),
            ..self
        }
    }

    /// The capture once packets were offered one after the other, each fed if more is wanted.
    pub open spec fn after_all(self, packets: Seq<Seq<i16>>) -> NativeView
        decreases packets.len(),
    {
        if packets.len() == 0 {
            self
        } else {
            let before = self.after_all(packets.drop_last());
            if before.wants_more() {
                before.after(packets.last())
            } else {
                before
            }
        }
    }
}

impl View for NativeCapture {
    type V = NativeView;

    closed spec fn view(&self) -> NativeView {
        NativeView {
            fed: fed_samples(self.session.fp),
            rest: self.session.rest@,
            channels: self.session.channels as nat,
            max: self.max_samples as int,
            total: self.total_samples as int,
        }
    }
}

impl NativeCapture {
    pub closed spec fn inv(&self) -> bool {
        self.session.inv()
    }

    /// The format that the fingerprinter was started with.
    pub closed spec fn format(&self) -> Option<(u32, u16)> {
        stream_format(self.session.fp)
    }

    /// The sub-fingerprints that the fingerprinter has computed.
    pub closed spec fn sub_fingerprints(&self) -> Seq<u32> {
        sub_fingerprints(self.session.fp)
    }

    /// Starts a capture of a track, given what the track says of its format.
    pub fn start(sample_rate: Option<u32>, channels: Option<usize>) -> (r: Result<
        NativeCapture,
        StreamError,
    >)
        requires
            sample_rate is Some && channels is Some ==> format_in_range(
                sample_rate->0,
                channels->0,
            ),
        ensures
            (r is Ok) == is_accepted(sample_rate, channels),
            (r matches Err(StreamError::NoRate)) == (sample_rate is None),
            (r matches Err(StreamError::NoChannels)) == (sample_rate is Some && channels is None),
            (r matches Err(StreamError::Rejected(_))) == (sample_rate is Some && channels is Some
                && (channels->0 as u16 == 0 || sample_rate->0 <= 1000)),
            r matches Err(StreamError::Rejected(error)) ==> refusal_of(error) == refusal(
                sample_rate->0,
                channels->0 as u16,
            ),
            r matches Ok(capture) ==> {
                &&& capture.inv()
                &&& capture.format() == Some((sample_rate->0, channels->0 as u16))
                &&& capture.sub_fingerprints() == Seq::<u32>::empty()
                &&& capture@ == NativeView::start(sample_rate->0, channels->0)
                &&& capture@.max == 120 * (sample_rate->0 * (channels->0 as u32))
                &&& capture@ == (NativeView {
                    fed: seq![],
                    rest: seq![],
                    channels: channels->0 as u16 as nat,
                    max: sample_limit(sample_rate->0, channels->0),
                    total: 0,
                })
            },
    {
        let rate: u32 = match sample_rate {
            Some(rate) => rate,
            None => {
                return Err(StreamError::NoRate);
            },
        };
        let count: usize = match channels {
            Some(count) => count,
            None => {
                return Err(StreamError::NoChannels);
            },
        };
        match Session::start(rate, count as u16) {
            Ok(session) => {
                proof {
                    limit_is_plain(rate, count);
                }
                let per_channel: u32 = MAX_SECONDS * rate;
                let max_samples: u32 = per_channel * (count as u32);
                Ok(NativeCapture { session, max_samples, total_samples: 0 })
            },
            Err(error) => Err(StreamError::Rejected(error)),
        }
    }

    /// Whether the next packet is still to be fed.
    pub fn wants_more(&self) -> (r: bool)
        ensures
            r == self@.wants_more(),
    {
        self.total_samples < self.max_samples
    }

    /// Whether the sample count stays in range when the samples of a packet are counted.
    pub fn has_room_for(&self, samples: &[i16]) -> (r: bool)
        ensures
            r == self@.has_room_for(samples@.len()),
            r == (self@.total + counted(samples@.len()) <= u32::MAX),
    {
        samples.len() as u32 <= u32::MAX - self.total_samples
    }

    /// Feeds the samples of one packet, interleaved. Those of a frame that breaks off are kept
    /// for the next packet.
    pub fn feed(&mut self, samples: &[i16])
        requires
            old(self).inv(),
            old(self)@.total + counted(samples@.len()) <= u32::MAX,
        ensures
            final(self).inv(),
            final(self).format() == old(self).format(),
            final(self)@ == old(self)@.after(samples@),
    {
        self.session.feed(samples);
        self.total_samples = self.total_samples + samples.len() as u32;
    }

    /// Ends the stream and returns the text of its fingerprint. A frame that is not complete is
    /// left out.
    pub fn finish(&mut self) -> (text: String)
        requires
            old(self).inv(),
        ensures
            final(self).inv(),
            final(self).format() == old(self).format(),
            final(self)@ == old(self)@,
            is_outcome(
                DEFAULT_ALGORITHM,
                final(self).format()->0,
                final(self)@.fed,
                final(self).sub_fingerprints(),
            ),
            text@ == compressed(DEFAULT_ALGORITHM, final(self).sub_fingerprints()),
            is_fingerprint_text(text@),
    {
        self.session.finish()
    }
}

/// The arguments that the external decoder gets before the path of the file.
pub fn arguments_before_the_path() -> (args: Vec<&'static str>)
    ensures
        texts_of(args@) == seq!["-hide_banner"@, "-loglevel"@, "error"@, "-nostdin"@, "-i"@],
{
    let args: Vec<&'static str> = vec!["-hide_banner", "-loglevel", "error", "-nostdin", "-i"];
    assert(texts_of(args@) =~= seq![
        "-hide_banner"@,
        "-loglevel"@,
        "error"@,
        "-nostdin"@,
        "-i"@,
    ]);
    args
}

/// The arguments that the external decoder gets after the path of the file: audio alone, as
/// interleaved 16-bit little-endian samples in `CHANNELS` channels at `SAMPLE_RATE`, written to
/// its standard output.
pub fn arguments_after_the_path() -> (args: Vec<&'static str>)
    ensures
        texts_of(args@) == seq![
            "-vn"@,
            "-sn"@,
            "-dn"@,
            "-f"@,
            "s16le"@,
            "-ac"@,
            "2"@,
            "-ar"@,
            "44100"@,
            "-"@,
        ],
{
    let args: Vec<&'static str> = vec![
        "-vn",
        "-sn",
        "-dn",
        "-f",
        "s16le",
        "-ac",
        "2",
        "-ar",
        "44100",
        "-",
    ];
    assert(texts_of(args@) =~= seq![
        "-vn"@,
        "-sn"@,
        "-dn"@,
        "-f"@,
        "s16le"@,
        "-ac"@,
        "2"@,
        "-ar"@,
        "44100"@,
        "-"@,
    ]);
    args
}

/// A fingerprint being taken of raw PCM that an external decoder writes to a pipe.
pub struct PipeCapture {
    session: Session,
    decoder: PcmDecoder,
    total_samples: u32,
}

/// What a capture of a pipe amounts to.
pub ghost struct PipeView {
    /// The samples that the fingerprinter was fed.
    pub fed: Seq<i16>,
    /// The samples kept of a frame that is not complete yet.
    pub rest: Seq<i16>,
    /// The bytes received that do not make a sample yet.
    pub pending: Seq<u8>,
    /// The number of samples used.
    pub total: int,
}

impl PipeView {
    /// A capture that has received nothing.
    pub open spec fn start() -> PipeView {
        PipeView { fed: seq![], rest: seq![], pending: seq![], total: 0 }
    }

    /// Whether the pipe is to be read further.
    pub open spec fn wants_more(self) -> bool {
        self.total < MAX_SAMPLES
    }

    /// Whether there is a fingerprint, given whether the external decoder exited with success.
    pub open spec fn has_fingerprint(self, decoder_succeeded: bool) -> bool {
        decoder_succeeded || self.total != 0
    }

    /// How many of `available` further samples are used.
    pub open spec fn used_of(self, available: int) -> int {
        if available <= MAX_SAMPLES - self.total {
            available
        } else {
            MAX_SAMPLES - self.total
        }
    }

    /// The capture once the bytes of a read were taken.
    pub open spec fn after(self, bytes: Seq<u8>) -> PipeView {
        let samples = samples_of(self.pending + bytes);
        let used = self.used_of(samples.len() as int);
        PipeView {
            fed: self.fed + whole_frames(self.rest + samples.take(used), CHANNELS as nat),
            rest: broken_frame(self.rest + samples.take(used), CHANNELS as nat),
            pending: odd_byte(self.pending + bytes),
            total: self.total + used,
        }
    }

    /// The capture once the bytes of several reads were taken.
    pub open spec fn after_all(self, reads: Seq<Seq<u8>>) -> PipeView
        decreases reads.len(),
    {
        if reads.len() == 0 {
            self
        } else {
            self.after_all(reads.drop_last()).after(reads.last())
        }
    }
}

impl View for PipeCapture {
    type V = PipeView;

    closed spec fn view(&self) -> PipeView {
        PipeView {
            fed: fed_samples(self.session.fp),
            rest: self.session.rest@,
            pending: self.decoder.pending(),
            total: self.total_samples as int,
        }
    }
}

impl PipeCapture {
    pub closed spec fn inv(&self) -> bool {
        &&& self.session.inv()
        &&& self.session.channels == CHANNELS
        &&& self.total_samples <= MAX_SAMPLES
    }

    /// The format that the fingerprinter was started with.
    pub closed spec fn format(&self) -> Option<(u32, u16)> {
        stream_format(self.session.fp)
    }

    /// The sub-fingerprints that the fingerprinter has computed.
    pub closed spec fn sub_fingerprints(&self) -> Seq<u32> {
        sub_fingerprints(self.session.fp)
    }

    /// Starts a capture of a pipe.
    pub fn start() -> (capture: PipeCapture)
        ensures
            capture.inv(),
            capture.format() == Some((SAMPLE_RATE, CHANNELS)),
            capture.sub_fingerprints() == Seq::<u32>::empty(),
            capture@ == PipeView::start(),
    {
        match Session::start(SAMPLE_RATE, CHANNELS) {
            Ok(session) => PipeCapture { session, decoder: PcmDecoder::new(), total_samples: 0 },
            Err(_) => vstd::pervasive::unreached(),
        }
    }

    /// Whether the pipe is to be read further.
    pub fn wants_more(&self) -> (r: bool)
        ensures
            r == self@.wants_more(),
            r == (self@.total < MAX_SAMPLES),
            r == (self@.total < sample_limit(SAMPLE_RATE, CHANNELS as usize)),
    {
        assert(MAX_SECONDS * SAMPLE_RATE * 2 == MAX_SAMPLES) by (nonlinear_arith)
            requires
                MAX_SECONDS == 120,
                SAMPLE_RATE == 44_100,
                MAX_SAMPLES == 10_584_000,
        ;
        self.total_samples < MAX_SAMPLES
    }

    /// Takes the bytes of one read of the pipe.
    pub fn push(&mut self, bytes: &[u8])
        requires
            old(self).inv(),
        ensures
            final(self).inv(),
            final(self).format() == old(self).format(),
            final(self)@ == old(self)@.after(bytes@),
    {
        let samples: Vec<i16> = self.decoder.decode(bytes);
        let remaining: usize = (MAX_SAMPLES - self.total_samples) as usize;
        let used: usize = if remaining < samples.len() {
            remaining
        } else {
            samples.len()
        };
        self.session.feed(slice_subrange(samples.as_slice(), 0, used));
        assert(samples@.subrange(0, used as int) == samples@.take(used as int));
        self.total_samples = self.total_samples + used as u32;
    }

    /// Ends the stream, given whether the external decoder exited with success. There is no
    /// fingerprint where it failed before it wrote a sample; else its text is returned.
    pub fn finish(&mut self, decoder_succeeded: bool) -> (r: Option<String>)
        requires
            old(self).inv(),
        ensures
            final(self).inv(),
            final(self).format() == old(self).format(),
            final(self)@ == old(self)@,
            (r is Some) == old(self)@.has_fingerprint(decoder_succeeded),
            (r is None) == (!decoder_succeeded && old(self)@.total == 0),
            r is Some ==> is_outcome(
                DEFAULT_ALGORITHM,
                final(self).format()->0,
                final(self)@.fed,
                final(self).sub_fingerprints(),
            ),
            r matches Some(text) ==> text@ == compressed(
                DEFAULT_ALGORITHM,
                final(self).sub_fingerprints(),
            ) && is_fingerprint_text(text@),
            r is None ==> final(self).sub_fingerprints() == old(self).sub_fingerprints(),
    {
        if !decoder_succeeded && self.total_samples == 0 {
            return None;
        }
        Some(self.session.finish())
    }
}

/// The bytes of several reads, one after the other.
pub open spec fn joined<T>(pieces: Seq<Seq<T>>) -> Seq<T>
    decreases pieces.len(),
{
    if pieces.len() == 0 {
        seq![]
    } else {
        joined(pieces.drop_last()) + pieces.last()
    }
}

/// However the bytes of a stream are spread over reads, a capture uses as many samples as the
/// whole stream holds, up to the limit, and keeps the stream's odd byte.
pub proof fn sample_count_is_independent_of_the_reads(reads: Seq<Seq<u8>>)
    ensures
        ({
            let end = PipeView::start().after_all(reads);
            let samples = samples_of(joined(reads));
            &&& end.total == PipeView::start().used_of(samples.len() as int)
            &&& end.pending == odd_byte(joined(reads))
        }),
    decreases reads.len(),
{
    if reads.len() == 0 {
        assert(odd_byte(joined(reads)) =~= seq![]);
    } else {
        let before = reads.drop_last();
        sample_count_is_independent_of_the_reads(before);
        decoding_is_independent_of_the_split(seq![], joined(before), reads.last());
        assert(seq![] + joined(before) =~= joined(before));
        assert(seq![] + joined(reads) =~= joined(reads));
    }
}

/// However the bytes of a stream are spread over reads, the samples fed and those kept are the
/// stream's samples from its start, in order and without a gap, up to the limit.
proof fn samples_are_fed_or_kept(reads: Seq<Seq<u8>>)
    ensures
        ({
            let end = PipeView::start().after_all(reads);
            let samples = samples_of(joined(reads));
            &&& end.fed + end.rest == samples.take(
                PipeView::start().used_of(samples.len() as int),
            )
            &&& end.fed.len() % (CHANNELS as nat) == 0
            &&& end.rest.len() < CHANNELS
        }),
    decreases reads.len(),
{
    let start = PipeView::start();
    if reads.len() == 0 {
        let samples = samples_of(joined(reads));
        assert(start.fed + start.rest =~= samples.take(start.used_of(samples.len() as int)));
    } else {
        let before = reads.drop_last();
        let last = reads.last();
        samples_are_fed_or_kept(before);
        sample_count_is_independent_of_the_reads(before);
        decoding_is_independent_of_the_split(seq![], joined(before), last);
        assert(seq![] + joined(before) =~= joined(before));
        assert(seq![] + joined(reads) =~= joined(reads));
        let middle = start.after_all(before);
        let end = start.after_all(reads);
        let old_samples = samples_of(joined(before));
        let new_samples = samples_of(middle.pending + last);
        let all_samples = samples_of(joined(reads));
        assert(all_samples == old_samples + new_samples);
        let used = new_samples.take(middle.used_of(new_samples.len() as int));
        let waiting = middle.rest + used;
        frames_are_whole(waiting, CHANNELS as nat);
        assert(end.fed + end.rest =~= middle.fed + (whole_frames(waiting, CHANNELS as nat)
            + broken_frame(waiting, CHANNELS as nat)));
        assert(middle.fed + waiting =~= (middle.fed + middle.rest) + used);
        assert((middle.fed + middle.rest) + used =~= all_samples.take(
            start.used_of(all_samples.len() as int),
        ));
        assert(end.fed.len() % (CHANNELS as nat) == 0) by {
            vstd::arithmetic::div_mod::lemma_add_mod_noop(
                middle.fed.len() as int,
                whole_frames(waiting, CHANNELS as nat).len() as int,
                CHANNELS as int,
            );
        }
    }
}

/// However the bytes of a stream are spread over reads, the fingerprinter is fed the whole
/// frames of the stream's samples from its start, in order and without a gap, up to the limit.
pub proof fn reads_feed_the_start_of_the_stream(reads: Seq<Seq<u8>>)
    ensures
        ({
            let end = PipeView::start().after_all(reads);
            let samples = samples_of(joined(reads));
            end.fed == whole_frames(
                samples.take(PipeView::start().used_of(samples.len() as int)),
                CHANNELS as nat,
            )
        }),
{
    let end = PipeView::start().after_all(reads);
    samples_are_fed_or_kept(reads);
    frames_in_front_are_kept(end.fed, end.rest, CHANNELS as nat);
    vstd::arithmetic::div_mod::lemma_small_mod(end.rest.len(), CHANNELS as nat);
    assert(end.fed + whole_frames(end.rest, CHANNELS as nat) =~= end.fed);
}

/// Two captures that received the same bytes, spread over reads in whatever way, have come to
/// the same.
pub proof fn capture_is_independent_of_the_reads(first: Seq<Seq<u8>>, second: Seq<Seq<u8>>)
    requires
        joined(first) == joined(second),
    ensures
        PipeView::start().after_all(first) == PipeView::start().after_all(second),
{
    let one = PipeView::start().after_all(first);
    let two = PipeView::start().after_all(second);
    sample_count_is_independent_of_the_reads(first);
    sample_count_is_independent_of_the_reads(second);
    reads_feed_the_start_of_the_stream(first);
    reads_feed_the_start_of_the_stream(second);
    samples_are_fed_or_kept(first);
    samples_are_fed_or_kept(second);
    assert(one.rest =~= (one.fed + one.rest).skip(one.fed.len() as int));
    assert(two.rest =~= (two.fed + two.rest).skip(two.fed.len() as int));
}

/// What follows the first two minutes of a stream changes nothing: two captures whose bytes
/// agree up to there are fed the same samples, those of the two minutes, and neither wants more.
pub proof fn what_follows_the_limit_is_not_fed(first: Seq<Seq<u8>>, second: Seq<Seq<u8>>)
    requires
        joined(first).len() >= 2 * MAX_SAMPLES,
        joined(second).len() >= 2 * MAX_SAMPLES,
        joined(first).take(2 * MAX_SAMPLES) == joined(second).take(2 * MAX_SAMPLES),
    ensures
        ({
            let one = PipeView::start().after_all(first);
            let two = PipeView::start().after_all(second);
            &&& one.fed == two.fed
            &&& one.fed == samples_of(joined(first).take(2 * MAX_SAMPLES))
            &&& one.total == MAX_SAMPLES
            &&& two.total == MAX_SAMPLES
        }),
{
    let head = joined(first).take(2 * MAX_SAMPLES);
    sample_count_is_independent_of_the_reads(first);
    sample_count_is_independent_of_the_reads(second);
    reads_feed_the_start_of_the_stream(first);
    reads_feed_the_start_of_the_stream(second);
    let one = samples_of(joined(first)).take(MAX_SAMPLES as int);
    let two = samples_of(joined(second)).take(MAX_SAMPLES as int);
    assert forall|i: int| 0 <= i < MAX_SAMPLES implies one[i] == #[trigger] samples_of(head)[i]
        && two[i] == samples_of(head)[i] by {
        assert(head[2 * i] == joined(first)[2 * i]);
        assert(head[2 * i + 1] == joined(first)[2 * i + 1]);
        assert(joined(second).take(2 * MAX_SAMPLES)[2 * i] == joined(second)[2 * i]);
        assert(joined(second).take(2 * MAX_SAMPLES)[2 * i + 1] == joined(second)[2 * i + 1]);
    }
    assert(one =~= samples_of(head));
    assert(two =~= samples_of(head));
    assert(whole_frames(samples_of(head), CHANNELS as nat) =~= samples_of(head));
}

/// A capture of a pipe never uses more than the limit, nor feeds more than it uses.
pub proof fn pipe_capture_stays_within_the_limit(reads: Seq<Seq<u8>>)
    ensures
        ({
            let end = PipeView::start().after_all(reads);
            end.fed.len() <= end.total <= MAX_SAMPLES
        }),
{
    sample_count_is_independent_of_the_reads(reads);
    samples_are_fed_or_kept(reads);
    let end = PipeView::start().after_all(reads);
    assert((end.fed + end.rest).len() == end.fed.len() + end.rest.len());
}

/// A capture of packets goes past its limit by less than the one packet that reached it.
pub proof fn native_capture_overshoots_by_less_than_a_packet(
    state: NativeView,
    packets: Seq<Seq<i16>>,
    longest: int,
)
    requires
        state.total == 0,
        0 <= longest,
        0 <= state.max,
        forall|i: int| 0 <= i < packets.len() ==> counted(#[trigger] packets[i].len()) <= longest,
    ensures
        ({
            let end = state.after_all(packets);
            &&& end.total < state.max + longest || end.total == 0
            &&& end.max == state.max
        }),
    decreases packets.len(),
{
    if packets.len() > 0 {
        let before = packets.drop_last();
        assert forall|i: int| 0 <= i < before.len() implies counted(
            #[trigger] before[i].len(),
        ) <= longest by {
            assert(before[i] == packets[i]);
        }
        native_capture_overshoots_by_less_than_a_packet(state, before, longest);
    }
}

/// The samples fed and those kept are the packets' samples from the start of the stream, in
/// order and without a gap, up to the first packet after which no more is wanted.
proof fn packets_are_fed_or_kept(state: NativeView, packets: Seq<Seq<i16>>) -> (n: int)
    requires
        state.channels > 0,
        state.fed.len() == 0,
        state.rest.len() == 0,
    ensures
        0 <= n <= packets.len(),
        ({
            let end = state.after_all(packets);
            &&& end.fed + end.rest == joined(packets.take(n))
            &&& end.fed.len() % end.channels == 0
            &&& end.rest.len() < end.channels
            &&& n < packets.len() ==> !end.wants_more()
            &&& end == state.after_all(packets.take(n))
            &&& end.channels == state.channels
        }),
        forall|k: int| 0 <= k < n ==> (#[trigger] state.after_all(packets.take(k))).wants_more(),
    decreases packets.len(),
{
    if packets.len() == 0 {
        assert(packets.take(0) =~= packets);
        assert(state.fed + state.rest =~= joined(packets));
        0
    } else {
        let before = packets.drop_last();
        let last = packets.last();
        let n = packets_are_fed_or_kept(state, before);
        let middle = state.after_all(before);
        assert(before.take(n) =~= packets.take(n));
        assert forall|k: int| 0 <= k < n implies (#[trigger] state.after_all(
            packets.take(k),
        )).wants_more() by {
            assert(before.take(k) =~= packets.take(k));
        }
        if middle.wants_more() {
            let end = state.after_all(packets);
            let waiting = middle.rest + last;
            assert(n == before.len());
            assert(packets.take(n) =~= before);
            assert(packets.take(n + 1) =~= packets);
            frames_are_whole(waiting, state.channels);
            assert(end.fed + end.rest =~= middle.fed + (whole_frames(waiting, state.channels)
                + broken_frame(waiting, state.channels)));
            assert(middle.fed + waiting =~= (middle.fed + middle.rest) + last);
            vstd::arithmetic::div_mod::lemma_add_mod_noop(
                middle.fed.len() as int,
                whole_frames(waiting, state.channels).len() as int,
                state.channels as int,
            );
            vstd::arithmetic::div_mod::lemma_small_mod(0, state.channels);
            n + 1
        } else {
            n
        }
    }
}

/// The fingerprinter is fed the whole frames of the stream's packets from its start, in order
/// and without a gap, wherever packets break frames. The packets end with the stream, or with
/// the first one after which no more is wanted.
pub proof fn packets_feed_the_start_of_the_stream(
    state: NativeView,
    packets: Seq<Seq<i16>>,
) -> (n: int)
    requires
        state.channels > 0,
        state.fed.len() == 0,
        state.rest.len() == 0,
    ensures
        0 <= n <= packets.len(),
        ({
            let end = state.after_all(packets);
            &&& end.fed == whole_frames(joined(packets.take(n)), state.channels)
            &&& end.rest == broken_frame(joined(packets.take(n)), state.channels)
            &&& end == state.after_all(packets.take(n))
            &&& n < packets.len() ==> !end.wants_more()
        }),
        forall|k: int| 0 <= k < n ==> (#[trigger] state.after_all(packets.take(k))).wants_more(),
{
    let n = packets_are_fed_or_kept(state, packets);
    let end = state.after_all(packets);
    frames_in_front_are_kept(end.fed, end.rest, state.channels);
    vstd::arithmetic::div_mod::lemma_small_mod(end.rest.len(), state.channels);
    assert(end.fed + whole_frames(end.rest, state.channels) =~= end.fed);
    assert(broken_frame(end.rest, state.channels) =~= end.rest);
    n
}

/// The limit as a plain product.
proof fn limit_is_plain(sample_rate: u32, channels: usize)
    ensures
        sample_limit(sample_rate, channels) == 120 * (sample_rate * (channels as u32)),
{
    let count = channels as u32;
    assert(MAX_SECONDS * sample_rate * count == 120 * (sample_rate * count)) by (nonlinear_arith)
        requires
            MAX_SECONDS == 120,
    ;
}

/// A track is fingerprinted up to 120 times its sample rate times its number of channels.
pub proof fn limit_is_two_minutes(sample_rate: u32, channels: usize)
    requires
        channels <= u32::MAX,
    ensures
        NativeView::start(sample_rate, channels).max == 120 * (sample_rate * channels),
{
    limit_is_plain(sample_rate, channels);
}

/// Every track with a sample rate above 1000 and at least one channel is fingerprinted, and no
/// other is.
pub proof fn ordinary_tracks_are_accepted(sample_rate: u32, channels: usize)
    requires
        channels <= u16::MAX,
    ensures
        is_accepted(Some(sample_rate), Some(channels)) <==> sample_rate >= 1001 && channels >= 1,
        !is_accepted(None, Some(channels)),
        !is_accepted(Some(sample_rate), None),
        !is_accepted(None, None),
{
}

/// A format is out of range only where two minutes of it are too many samples to count in 32
/// bits, or its rate is too high for the fingerprinter.
pub proof fn ordinary_formats_are_in_range(sample_rate: u32, channels: usize)
    requires
        channels <= u16::MAX,
    ensures
        format_in_range(sample_rate, channels) <==> (channels == 0 || (sample_rate <= 8_388_607 && (
        sample_rate <= 1000 || 120 * (sample_rate * channels) <= u32::MAX))),
{
    limit_is_plain(sample_rate, channels);
}

/// A packet can be counted as long as all samples so far and those of the packet are no more
/// than 32 bits can tell.
pub proof fn packets_have_room(state: NativeView, len: nat)
    requires
        len <= u32::MAX,
    ensures
        state.has_room_for(len) <==> state.total + len <= u32::MAX,
{
}

/// The track that is fingerprinted is the first whose codec is known: there is one if any is
/// known, and none before it is.
pub proof fn first_known_track_is_taken(codec_known: Seq<bool>, track: Option<usize>, i: int)
    requires
        is_audio_track(codec_known, track),
        0 <= i < codec_known.len(),
        codec_known[i],
    ensures
        track is Some,
        track->0 <= i,
        codec_known[track->0 as int],
{
}

/// As long as more was wanted after each packet, all samples of the packets are counted.
proof fn all_samples_are_counted(state: NativeView, packets: Seq<Seq<i16>>)
    requires
        forall|i: int| 0 <= i < packets.len() ==> #[trigger] packets[i].len() <= u32::MAX,
        forall|k: int|
            0 <= k < packets.len() ==> (#[trigger] state.after_all(packets.take(k))).wants_more(),
    ensures
        state.after_all(packets).total == state.total + joined(packets).len(),
        state.after_all(packets).max == state.max,
    decreases packets.len(),
{
    if packets.len() > 0 {
        let before = packets.drop_last();
        assert forall|i: int| 0 <= i < before.len() implies #[trigger] before[i].len()
            <= u32::MAX by {
            assert(before[i] == packets[i]);
        }
        assert forall|k: int| 0 <= k < before.len() implies (#[trigger] state.after_all(
            before.take(k),
        )).wants_more() by {
            assert(before.take(k) =~= packets.take(k));
        }
        all_samples_are_counted(state, before);
        assert(packets.take(packets.len() - 1) =~= before);
        assert(packets[packets.len() - 1].len() <= u32::MAX);
    }
}

/// Of a track that is decoded packet by packet, the first `n` packets are fed, as whole frames:
/// as many as it takes to reach two minutes, or all of them. A track is cut only where it holds
/// two minutes or more.
pub proof fn track_is_fed_for_two_minutes(
    sample_rate: u32,
    channels: usize,
    packets: Seq<Seq<i16>>,
) -> (n: int)
    requires
        0 < channels <= u16::MAX,
        forall|i: int| 0 <= i < packets.len() ==> #[trigger] packets[i].len() <= u32::MAX,
    ensures
        0 <= n <= packets.len(),
        ({
            let end = NativeView::start(sample_rate, channels).after_all(packets);
            let heard = joined(packets.take(n));
            let limit = 120 * (sample_rate * channels);
            &&& end.fed == heard.take(heard.len() - heard.len() % (channels as nat))
            &&& end.total == heard.len()
            &&& n < packets.len() ==> heard.len() >= limit
            &&& end.wants_more() <==> heard.len() < limit
        }),
        forall|k: int|
            0 <= k < n ==> #[trigger] joined(packets.take(k)).len() < 120 * (sample_rate
                * channels),
{
    let state = NativeView::start(sample_rate, channels);
    let n = packets_feed_the_start_of_the_stream(state, packets);
    let end = state.after_all(packets);
    limit_is_plain(sample_rate, channels);
    assert forall|k: int| 0 <= k <= n implies (#[trigger] state.after_all(packets.take(k))).total
        == joined(packets.take(k)).len() && state.after_all(packets.take(k)).max == state.max by {
        let some = packets.take(k);
        assert forall|i: int| 0 <= i < some.len() implies #[trigger] some[i].len() <= u32::MAX by {
            assert(some[i] == packets[i]);
        }
        assert forall|m: int| 0 <= m < some.len() implies (#[trigger] state.after_all(
            some.take(m),
        )).wants_more() by {
            assert(some.take(m) =~= packets.take(m));
        }
        all_samples_are_counted(state, some);
    }
    assert forall|k: int| 0 <= k < n implies #[trigger] joined(packets.take(k)).len() < 120 * (
    sample_rate * channels) by {
        assert(state.after_all(packets.take(k)).wants_more());
    }
    assert(end == state.after_all(packets.take(n)));
    n
}

/// Of what an external decoder writes, the first two minutes are taken, sample by sample: two
/// bytes each, low byte first, in order. Whole frames of two samples are fed.
pub proof fn pipe_is_fed_for_two_minutes(reads: Seq<Seq<u8>>)
    ensures
        ({
            let end = PipeView::start().after_all(reads);
            let bytes = joined(reads);
            let count = if bytes.len() / 2 < 10_584_000 {
                (bytes.len() / 2) as int
            } else {
                10_584_000
            };
            &&& end.total == count
            &&& end.fed.len() == count - count % 2
            &&& forall|i: int|
                0 <= i < end.fed.len() ==> {
                    &&& (#[trigger] end.fed[i] as u16) % 256 == bytes[2 * i]
                    &&& (end.fed[i] as u16) / 256 == bytes[2 * i + 1]
                }
            &&& end.wants_more() <==> bytes.len() < 21_168_000
            &&& end.has_fingerprint(true)
            &&& end.has_fingerprint(false) <==> bytes.len() >= 2
        }),
{
    let bytes = joined(reads);
    sample_count_is_independent_of_the_reads(reads);
    reads_feed_the_start_of_the_stream(reads);
    samples_give_back_the_stream(bytes);
    let end = PipeView::start().after_all(reads);
    let samples = samples_of(bytes);
    assert forall|i: int| 0 <= i < end.fed.len() implies {
        &&& (#[trigger] end.fed[i] as u16) % 256 == bytes[2 * i]
        &&& (end.fed[i] as u16) / 256 == bytes[2 * i + 1]
    } by {
        assert(end.fed[i] == samples[i]);
    }
}

/// The external decoder is asked for what is fingerprinted: 44,100 samples a second in two
/// channels.
pub proof fn pipe_has_the_usual_format()
    ensures
        SAMPLE_RATE == 44_100,
        CHANNELS == 2,
        MAX_SAMPLES == 120 * 44_100 * 2,
{
}

} // verus!
