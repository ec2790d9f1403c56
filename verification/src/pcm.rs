//! Little-endian 16-bit PCM, read from a byte stream that arrives in pieces.

use vstd::prelude::*;

verus! {

/// The signed sample stored in two bytes, low byte first.
pub open spec fn sample_of(lo: u8, hi: u8) -> i16 {
    let unsigned = lo as int + 256 * hi as int;
    (if unsigned < 0x8000 {
        unsigned
    } else {
        unsigned - 0x1_0000
    }) as i16
}

/// The samples stored in `bytes`; an odd byte at the end belongs to none of them.
pub open spec fn samples_of(bytes: Seq<u8>) -> Seq<i16> {
    Seq::new(bytes.len() / 2, |i: int| sample_of(bytes[2 * i], bytes[2 * i + 1]))
}

/// The odd byte at the end of `bytes`, if there is one.
pub open spec fn odd_byte(bytes: Seq<u8>) -> Seq<u8> {
    bytes.skip(bytes.len() - bytes.len() % 2)
}

/// Joins two bytes, low byte first, into a sample.
pub fn sample_from(lo: u8, hi: u8) -> (sample: i16)
    ensures
        sample == sample_of(lo, hi),
        (sample as u16) % 256 == lo,
        (sample as u16) / 256 == hi,
{
    let unsigned: u16 = (lo as u16) + 256 * (hi as u16);
    let signed: i16 = unsigned as i16;
    assert(unsigned < 0x8000 ==> unsigned as i16 == unsigned) by (bit_vector);
    assert(unsigned >= 0x8000 ==> unsigned as i16 == unsigned - 0x1_0000) by (bit_vector);
    assert((unsigned as i16) as u16 == unsigned) by (bit_vector);
    signed
}

/// Turns a byte stream into samples, keeping the odd byte of one piece for the next.
pub struct PcmDecoder {
    carry: Option<u8>,
}

impl PcmDecoder {
    /// The bytes received that do not make a sample yet: none or one.
    pub closed spec fn pending(&self) -> Seq<u8> {
        match self.carry {
            Some(byte) => seq![byte],
            None => seq![],
        }
    }

    /// A decoder at the start of a stream.
    pub fn new() -> (decoder: PcmDecoder)
        ensures
            decoder.pending() == Seq::<u8>::empty(),
    {
        PcmDecoder { carry: None }
    }

    /// Takes the next piece of the stream and returns the samples that it completes.
    pub fn decode(&mut self, bytes: &[u8]) -> (samples: Vec<i16>)
        ensures
            samples@ == samples_of(old(self).pending() + bytes@),
            final(self).pending() == odd_byte(old(self).pending() + bytes@),
    {
        let ghost all: Seq<u8> = self.pending() + bytes@;
        let n: usize = bytes.len();
        if n == 0 {
            assert(all =~= self.pending());
            assert(samples_of(all) =~= seq![]);
            assert(odd_byte(all) =~= all);
            return Vec::new();
        }
        let mut samples: Vec<i16> = Vec::with_capacity(n / 2 + 1);
        let mut index: usize = 0;
        if let Some(lo) = self.carry {
            samples.push(sample_from(lo, bytes[0]));
            index = 1;
        }
        let ghost held: int = self.pending().len() as int;
        self.carry = None;
        while n - index >= 2
            invariant
                n == bytes.len(),
                index <= n,
                0 <= held <= 1,
                all.len() == held + n,
                forall|i: int| 0 <= i < n ==> all[held + i] == #[trigger] bytes@[i],
                2 * samples.len() == held + index,
                forall|i: int|
                    0 <= i < samples.len() ==> #[trigger] samples@[i] == sample_of(
                        all[2 * i],
                        all[2 * i + 1],
                    ),
            decreases n - index,
        {
            samples.push(sample_from(bytes[index], bytes[index + 1]));
            index = index + 2;
        }
        if index < n {
            self.carry = Some(bytes[index]);
        }
        assert(samples@ =~= samples_of(all));
        assert(self.pending() =~= odd_byte(all));
        samples
    }
}

/// Reading a stream in two pieces gives the samples, and leaves the odd byte, that reading
/// it in one piece does.
pub proof fn decoding_is_independent_of_the_split(pending: Seq<u8>, first: Seq<u8>, second: Seq<u8>)
    requires
        pending.len() <= 1,
    ensures
        ({
            let between = odd_byte(pending + first);
            &&& samples_of(pending + first) + samples_of(between + second) == samples_of(
                pending + (first + second),
            )
            &&& odd_byte(between + second) == odd_byte(pending + (first + second))
        }),
{
    let head = pending + first;
    let between = odd_byte(head);
    let rest = between + second;
    let whole = pending + (first + second);
    let cut: int = head.len() - head.len() % 2;
    assert(whole.len() == cut + rest.len());
    assert forall|i: int| 0 <= i < rest.len() implies rest[i] == #[trigger] whole[cut + i] by {}
    assert(samples_of(head) + samples_of(rest) =~= samples_of(whole)) by {
        let left = samples_of(head);
        assert(2 * left.len() == cut);
        assert forall|i: int| 0 <= i < samples_of(whole).len() implies (left + samples_of(rest))[i]
            == samples_of(whole)[i] by {
            if i < left.len() {
                assert(head[2 * i] == whole[2 * i]);
                assert(head[2 * i + 1] == whole[2 * i + 1]);
            } else {
                let j = i - left.len();
                assert(rest[2 * j] == whole[cut + 2 * j]);
                assert(rest[2 * j + 1] == whole[cut + (2 * j + 1)]);
            }
        }
    }
    assert(odd_byte(rest) =~= odd_byte(whole));
}

/// A sample is the one whose two bytes, low byte first, are those that it was made of.
pub proof fn sample_keeps_its_bytes(lo: u8, hi: u8)
    ensures
        (sample_of(lo, hi) as u16) % 256 == lo,
        (sample_of(lo, hi) as u16) / 256 == hi,
{
    let unsigned = (lo as int + 256 * hi as int) as u16;
    assert(unsigned < 0x8000 ==> unsigned as i16 == unsigned) by (bit_vector);
    assert(unsigned >= 0x8000 ==> unsigned as i16 == unsigned - 0x1_0000) by (bit_vector);
    assert((unsigned as i16) as u16 == unsigned) by (bit_vector);
    assert(sample_of(lo, hi) == unsigned as i16);
}

/// The bytes of samples, low byte first.
pub open spec fn bytes_of(samples: Seq<i16>) -> Seq<u8> {
    Seq::new(
        2 * samples.len(),
        |i: int|
            (if i % 2 == 0 {
                (samples[i / 2] as u16) % 256
            } else {
                (samples[i / 2] as u16) / 256
            }) as u8,
    )
}

/// Nothing of a stream is lost or changed: its samples, turned to bytes again, and the odd byte
/// behind them are the stream. There is one sample to two bytes.
pub proof fn samples_give_back_the_stream(bytes: Seq<u8>)
    ensures
        bytes_of(samples_of(bytes)) + odd_byte(bytes) == bytes,
        samples_of(bytes).len() == bytes.len() / 2,
        odd_byte(bytes).len() == bytes.len() % 2,
        forall|i: int|
            0 <= i < samples_of(bytes).len() ==> {
                &&& (#[trigger] samples_of(bytes)[i] as u16) % 256 == bytes[2 * i]
                &&& (samples_of(bytes)[i] as u16) / 256 == bytes[2 * i + 1]
            },
{
    let samples = samples_of(bytes);
    assert forall|i: int| 0 <= i < samples.len() implies {
        &&& (#[trigger] samples[i] as u16) % 256 == bytes[2 * i]
        &&& (samples[i] as u16) / 256 == bytes[2 * i + 1]
    } by {
        sample_keeps_its_bytes(bytes[2 * i], bytes[2 * i + 1]);
    }
    let back = bytes_of(samples) + odd_byte(bytes);
    assert forall|i: int| 0 <= i < bytes.len() implies back[i] == bytes[i] by {
        if i < 2 * samples.len() {
            let k = i / 2;
            assert((samples[k] as u16) % 256 == bytes[2 * k]);
            assert(i == 2 * k || i == 2 * k + 1);
        }
    }
    assert(back =~= bytes);
}

/// Two streams with the same samples and the same odd byte are the same stream.
pub proof fn different_streams_have_different_samples(first: Seq<u8>, second: Seq<u8>)
    requires
        samples_of(first) == samples_of(second),
        odd_byte(first) == odd_byte(second),
    ensures
        first == second,
{
    samples_give_back_the_stream(first);
    samples_give_back_the_stream(second);
}

} // verus!
