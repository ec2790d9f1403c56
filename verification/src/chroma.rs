//! The Chromaprint fingerprinter, as the rest of the library sees it.
//!
//! What is said here of `chromaprint::Fingerprinter` is taken on trust. The names below stand
//! for what a fingerprinter holds; every fingerprinter of this library uses the crate's default
//! algorithm, whose number is `DEFAULT_ALGORITHM`.

use vstd::prelude::*;

verus! {

/// The fingerprinter of the `chromaprint` crate.
#[verifier::external_type_specification]
#[verifier::external_body]
pub struct ExFingerprinter(chromaprint::Fingerprinter);

/// What the `chromaprint` crate answers where it refuses a call.
#[verifier::external_type_specification]
#[verifier::external_body]
pub struct ExChromaprintError(chromaprint::Error);

/// The number of the algorithm that a fingerprinter uses.
pub uninterp spec fn algorithm_of(fp: chromaprint::Fingerprinter) -> u8;

/// What the fingerprinter refuses.
pub ghost enum Refusal {
    /// A stream of this sample rate.
    SampleRate(u32),
    /// A stream of this number of channels.
    Channels(u16),
    /// Something else.
    Other,
}

/// What an error says is refused.
pub uninterp spec fn refusal_of(error: chromaprint::Error) -> Refusal;

/// The sample rate and the number of channels of the stream being fingerprinted, once started.
pub uninterp spec fn stream_format(fp: chromaprint::Fingerprinter) -> Option<(u32, u16)>;

/// The samples fed since the stream was started, in order.
pub uninterp spec fn fed_samples(fp: chromaprint::Fingerprinter) -> Seq<i16>;

/// The sub-fingerprints computed so far.
pub uninterp spec fn sub_fingerprints(fp: chromaprint::Fingerprinter) -> Seq<u32>;

/// The text form of a list of sub-fingerprints: compressed, with the algorithm's number and the
/// length in front, and written in URL-safe base64.
pub uninterp spec fn compressed(algorithm: u8, sub_fingerprints: Seq<u32>) -> Seq<char>;

/// Whether a fingerprinter can hold these sub-fingerprints: one of the given algorithm that was
/// started on the given format, was fed the given samples in order, in pieces of any length, and
/// has `finish` as its last call. Processors may differ in the floating-point arithmetic that
/// leads to them, so more than one list can come of the same samples.
pub uninterp spec fn is_outcome(
    algorithm: u8,
    format: (u32, u16),
    samples: Seq<i16>,
    sub_fingerprints: Seq<u32>,
) -> bool;

/// The number of the `chromaprint` crate's default algorithm.
pub const DEFAULT_ALGORITHM: u8 = 1;

/// The highest sample rate for which the resampler's step, 256 times the rate, fits in 32 bits.
pub const MAX_SAMPLE_RATE: u32 = 8_388_607;

/// Whether `c` is one of the 64 characters of URL-safe base64.
pub open spec fn is_base64_url(c: char) -> bool {
    ||| 'A' <= c <= 'Z'
    ||| 'a' <= c <= 'z'
    ||| '0' <= c <= '9'
    ||| c == '-'
    ||| c == '_'
}

/// Whether `text` has the form of every fingerprint text: the four header bytes alone take six
/// characters, and all characters are those of URL-safe base64.
pub open spec fn is_fingerprint_text(text: Seq<char>) -> bool {
    &&& text.len() >= 6
    &&& forall|i: int| 0 <= i < text.len() ==> is_base64_url(#[trigger] text[i])
}

/// `chromaprint::Fingerprinter::new` on `chromaprint::Algorithm::default()`: a fingerprinter of
/// that algorithm that was not started and holds nothing.
#[verifier::external_body]
pub(crate) fn new_fingerprinter() -> (fp: chromaprint::Fingerprinter)
    ensures
        algorithm_of(fp) == DEFAULT_ALGORITHM,
        stream_format(fp) is None,
        fed_samples(fp) == Seq::<i16>::empty(),
        sub_fingerprints(fp) == Seq::<u32>::empty(),
{
    chromaprint::Fingerprinter::new(chromaprint::Algorithm::default())
}

/// `chromaprint::Fingerprinter::start`: refuses a stream without channels and one of 1000 Hz or
/// less, and then changes nothing; else begins an empty stream of the given format. The error
/// names what is refused, the channels before the rate. Rates above `MAX_SAMPLE_RATE` are left
/// out: there the resampler's arithmetic overflows.
pub assume_specification[ chromaprint::Fingerprinter::start ](
    fp: &mut chromaprint::Fingerprinter,
    sample_rate: u32,
    num_channels: u16,
) -> (r: Result<(), chromaprint::Error>)
    requires
        num_channels != 0 ==> sample_rate <= MAX_SAMPLE_RATE,
    ensures
        (r is Ok) == (num_channels != 0 && sample_rate > 1000),
        algorithm_of(*final(fp)) == algorithm_of(*old(fp)),
        r is Ok ==> stream_format(*final(fp)) == Some((sample_rate, num_channels)),
        r is Ok ==> fed_samples(*final(fp)) == Seq::<i16>::empty(),
        r is Ok ==> sub_fingerprints(*final(fp)) == Seq::<u32>::empty(),
        r matches Err(error) ==> refusal_of(error) == (if num_channels == 0 {
            Refusal::Channels(num_channels)
        } else {
            Refusal::SampleRate(sample_rate)
        }),
        r is Err ==> stream_format(*final(fp)) == stream_format(*old(fp)),
        r is Err ==> fed_samples(*final(fp)) == fed_samples(*old(fp)),
        r is Err ==> sub_fingerprints(*final(fp)) == sub_fingerprints(*old(fp)),
;

/// `chromaprint::Fingerprinter::feed`: refused before `start`; else the samples are taken, and
/// sub-fingerprints may be added at the end. A piece that breaks off inside a frame is left
/// out: it is a failed debug assertion there. Which sub-fingerprints are added on the way is left
/// unsaid; `finish` says what they amount to.
pub assume_specification[ chromaprint::Fingerprinter::feed ](
    fp: &mut chromaprint::Fingerprinter,
    samples: &[i16],
) -> (r: Result<(), chromaprint::Error>)
    requires
        stream_format(*old(fp)) matches Some((_, channels)) ==> samples@.len() % channels as nat
            == 0,
    ensures
        (r is Ok) == (stream_format(*old(fp)) is Some),
        algorithm_of(*final(fp)) == algorithm_of(*old(fp)),
        stream_format(*final(fp)) == stream_format(*old(fp)),
        r is Ok ==> fed_samples(*final(fp)) == fed_samples(*old(fp)) + samples@,
        r is Err ==> fed_samples(*final(fp)) == fed_samples(*old(fp)),
        sub_fingerprints(*old(fp)).is_prefix_of(sub_fingerprints(*final(fp))),
        r is Err ==> sub_fingerprints(*final(fp)) == sub_fingerprints(*old(fp)),
;

/// `chromaprint::Fingerprinter::finish`: refused before `start`; else what is still buffered is
/// worked off, which may add sub-fingerprints at the end. They are then an outcome of all the
/// samples fed. Which of the outcomes it is, is left unsaid: that depends on the processor.
pub assume_specification[ chromaprint::Fingerprinter::finish ](
    fp: &mut chromaprint::Fingerprinter,
) -> (r: Result<(), chromaprint::Error>)
    ensures
        (r is Ok) == (stream_format(*old(fp)) is Some),
        algorithm_of(*final(fp)) == algorithm_of(*old(fp)),
        stream_format(*final(fp)) == stream_format(*old(fp)),
        fed_samples(*final(fp)) == fed_samples(*old(fp)),
        sub_fingerprints(*old(fp)).is_prefix_of(sub_fingerprints(*final(fp))),
        r is Ok ==> is_outcome(
            algorithm_of(*final(fp)),
            stream_format(*final(fp))->0,
            fed_samples(*final(fp)),
            sub_fingerprints(*final(fp)),
        ),
        r is Err ==> sub_fingerprints(*final(fp)) == sub_fingerprints(*old(fp)),
;

/// `chromaprint::Fingerprinter::encode`: the text form of the sub-fingerprints computed so far.
pub assume_specification[ chromaprint::Fingerprinter::encode ](
    fp: &chromaprint::Fingerprinter,
) -> (text: String)
    ensures
        text@ == compressed(algorithm_of(*fp), sub_fingerprints(*fp)),
        is_fingerprint_text(text@),
;

} // verus!
