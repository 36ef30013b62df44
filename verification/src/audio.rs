use vstd::prelude::*;
use vstd::string::*;
pub use crate::arith::PCM16_SCALE;
use crate::arith::{
    law_mean_of_small_ratios, law_small_ratio, mean, pcm16_of, ratio_bits, ratio_to_bits,
    safe_mean, to_pcm16,
};
use crate::single::{denotes, finite, is_finite, sanitized};
use crate::text::{concat2, decimal, push_decimal};
use crate::wav::{
    container_header, describe, header_of, next_sample, open, pending_samples, wav_contents, Reader,
};

verus! {

/// The one sample rate, in hertz, that the recognisers take.
pub const SAMPLE_RATE: u32 = 16000;

/// How a container stores one sample.
#[derive(Clone, Copy, Debug, PartialEq, Eq, Structural)]
pub enum SampleFormat {
    /// As a signed integer.
    Int,
    /// As an IEEE 754 single-precision number.
    Float,
}

/// What a WAV container says of its audio.
#[derive(Clone, Copy, Debug, PartialEq, Eq, Structural)]
pub struct WavHeader {
    pub channels: u16,
    pub sample_rate: u32,
    pub bits_per_sample: u16,
    pub sample_format: SampleFormat,
}

/// The samples of a container as decoded, channels interleaved. A sample
/// that could not be decoded is `None`.
pub enum Samples {
    /// Integer samples.
    Int(Vec<Option<i32>>),
    /// Single-precision samples, each by its bit pattern.
    Float(Vec<Option<u32>>),
}

/// Why audio was refused.
#[derive(Debug)]
pub enum AudioError {
    /// The bytes are no WAV container.
    Format { detail: String },
    /// The sample rate is not 16000 Hz.
    SampleRate { rate: u32 },
    /// The audio has neither one channel nor two.
    Channels { channels: u16 },
}

/// What reading a container gives.
pub enum Decoded {
    /// The container held integer samples: its audio, normalised.
    Audio { audio: AudioBuffer },
    /// The container holds single-precision samples, which are still to be
    /// read from it; its header is sound.
    AwaitingFloats { header: WavHeader },
}

/// The integer that a decoded sample stands for: a failed one counts as 0.
pub open spec fn int_word(word: Option<i32>) -> int {
    match word {
        Some(sample) => sample as int,
        None => 0,
    }
}

/// The bit pattern that a decoded sample stands for: a failed one counts as
/// the pattern of 0.0, which is 0.
pub open spec fn float_word(word: Option<u32>) -> u32 {
    match word {
        Some(bits) => bits,
        None => 0,
    }
}

/// The refusal that a header earns, if any: first for its sample rate, then
/// for its channel count.
pub open spec fn refusal(header: WavHeader) -> Option<AudioError> {
    if header.sample_rate != SAMPLE_RATE {
        Some(AudioError::SampleRate { rate: header.sample_rate })
    } else if header.channels != 1 && header.channels != 2 {
        Some(AudioError::Channels { channels: header.channels })
    } else {
        None
    }
}

/// The number of frames that `samples` interleaved samples make: as many for
/// one channel, half as many, rounded down, for two.
pub open spec fn frame_count(header: WavHeader, samples: nat) -> nat {
    if header.channels == 2 {
        samples / 2
    } else {
        samples
    }
}

/// An integer sample of `bits` bits as a single-precision number: the one
/// nearest to the sample over `2^(bits - 1)`.
pub open spec fn converted(word: Option<i32>, header: WavHeader) -> u32 {
    ratio_bits(int_word(word), header.bits_per_sample - 1)
}

/// Sample `i` of normalised integer audio. With one channel it is sample
/// `i` of the container, converted; with two it is the mean of samples `2i`
/// and `2i + 1`, each converted.
pub open spec fn int_sample(header: WavHeader, words: Seq<Option<i32>>, i: int) -> u32 {
    if header.channels == 2 {
        safe_mean(converted(words[2 * i], header), converted(words[2 * i + 1], header))
    } else {
        sanitized(converted(words[i], header))
    }
}

/// Sample `i` of normalised single-precision audio. With one channel it is
/// sample `i` of the container, made safe; with two it is the mean of
/// samples `2i` and `2i + 1`, made safe.
pub open spec fn float_sample(header: WavHeader, words: Seq<Option<u32>>, i: int) -> u32 {
    if header.channels == 2 {
        safe_mean(float_word(words[2 * i]), float_word(words[2 * i + 1]))
    } else {
        sanitized(float_word(words[i]))
    }
}

/// Integer audio, normalised.
pub open spec fn int_audio(header: WavHeader, words: Seq<Option<i32>>) -> Seq<u32> {
    Seq::new(frame_count(header, words.len()), |i: int| int_sample(header, words, i))
}

/// Single-precision audio, normalised.
pub open spec fn float_audio(header: WavHeader, words: Seq<Option<u32>>) -> Seq<u32> {
    Seq::new(frame_count(header, words.len()), |i: int| float_sample(header, words, i))
}

/// Decoded audio, normalised: mono, one sample to a frame, every sample
/// finite.
pub open spec fn normalized(header: WavHeader, samples: Samples) -> Seq<u32> {
    match samples {
        Samples::Int(words) => int_audio(header, words@),
        Samples::Float(words) => float_audio(header, words@),
    }
}

/// Checks a header: the sample rate must be 16000 Hz, and there must be one
/// channel or two. The rate is looked at first.
pub fn check_header(header: &WavHeader) -> (r: Result<(), AudioError>)
    ensures
        match refusal(*header) {
            Some(e) => r == Err::<(), AudioError>(e),
            None => r is Ok,
        },
{
    if header.sample_rate != SAMPLE_RATE {
        Err(AudioError::SampleRate { rate: header.sample_rate })
    } else if header.channels != 1 && header.channels != 2 {
        Err(AudioError::Channels { channels: header.channels })
    } else {
        Ok(())
    }
}

/// Converts one integer sample.
fn convert(word: &Option<i32>, header: &WavHeader) -> (bits: u32)
    ensures
        bits == converted(*word, *header),
{
    let sample: i64 = match word {
        Some(sample) => *sample as i64,
        None => 0,
    };
    ratio_to_bits(sample, header.bits_per_sample as i32 - 1)
}

/// The pattern of one single-precision sample.
fn float_value(word: &Option<u32>) -> (v: u32)
    ensures
        v == float_word(*word),
{
    match word {
        Some(bits) => *bits,
        None => 0,
    }
}

/// Makes a pattern safe.
fn safe(bits: u32) -> (r: u32)
    ensures
        r == sanitized(bits),
{
    if is_finite(bits) {
        bits
    } else {
        0
    }
}

/// Normalises integer audio of one channel or two.
fn normalize_int(header: &WavHeader, words: &Vec<Option<i32>>) -> (audio: AudioBuffer)
    requires
        header.channels == 1 || header.channels == 2,
    ensures
        audio@ == int_audio(*header, words@),
{
    let mut values: Vec<u32> = Vec::new();
    let stereo = header.channels == 2;
    let count: usize = if stereo {
        words.len() / 2
    } else {
        words.len()
    };
    let mut i: usize = 0;
    while i < count
        invariant
            i <= count,
            stereo == (header.channels == 2),
            count == frame_count(*header, words@.len()),
            stereo ==> 2 * count <= words.len(),
            !stereo ==> count <= words.len(),
            values@.len() == i,
            forall|k: int| 0 <= k < i ==> values@[k] == int_sample(*header, words@, k),
        decreases count - i,
    {
        let value = if stereo {
            mean(convert(&words[2 * i], header), convert(&words[2 * i + 1], header))
        } else {
            safe(convert(&words[i], header))
        };
        values.push(value);
        i += 1;
    }
    let audio = AudioBuffer::seal(values);
    proof {
        assert forall|k: int| 0 <= k < count implies audio@[k] == int_sample(*header, words@, k) by {
            assert(audio@[k] == sanitized(values@[k]));
        }
        assert(audio@ =~= int_audio(*header, words@));
    }
    audio
}

/// Normalises single-precision audio of one channel or two.
fn normalize_float(header: &WavHeader, words: &Vec<Option<u32>>) -> (audio: AudioBuffer)
    requires
        header.channels == 1 || header.channels == 2,
    ensures
        audio@ == float_audio(*header, words@),
{
    let mut values: Vec<u32> = Vec::new();
    let stereo = header.channels == 2;
    let count: usize = if stereo {
        words.len() / 2
    } else {
        words.len()
    };
    let mut i: usize = 0;
    while i < count
        invariant
            i <= count,
            stereo == (header.channels == 2),
            count == frame_count(*header, words@.len()),
            stereo ==> 2 * count <= words.len(),
            !stereo ==> count <= words.len(),
            values@.len() == i,
            forall|k: int| 0 <= k < i ==> values@[k] == float_sample(*header, words@, k),
        decreases count - i,
    {
        let value = if stereo {
            mean(float_value(&words[2 * i]), float_value(&words[2 * i + 1]))
        } else {
            safe(float_value(&words[i]))
        };
        values.push(value);
        i += 1;
    }
    let audio = AudioBuffer::seal(values);
    proof {
        assert forall|k: int| 0 <= k < count implies audio@[k] == float_sample(*header, words@, k) by {
            assert(audio@[k] == sanitized(values@[k]));
        }
        assert(audio@ =~= float_audio(*header, words@));
    }
    audio
}

/// Normalises decoded audio: mono, 16000 Hz, every sample a finite
/// single-precision number. A header with another sample rate than 16000 Hz
/// is refused, then one with another channel count than one or two. An
/// integer sample is converted by dividing it by `2^(bits - 1)`, and a
/// single-precision sample passes through. One channel is taken as it is;
/// two channels are averaged pair by pair, and a last sample without its
/// partner is left out. A sample that failed to decode counts as zero, and a
/// value that is not finite becomes zero.
pub fn normalize(header: &WavHeader, samples: &Samples) -> (r: Result<AudioBuffer, AudioError>)
    ensures
        match refusal(*header) {
            Some(e) => r == Err::<AudioBuffer, AudioError>(e),
            None => r matches Ok(audio) && audio@ == normalized(*header, *samples),
        },
{
    match check_header(header) {
        Err(e) => Err(e),
        Ok(_) => match samples {
            Samples::Int(words) => Ok(normalize_int(header, words)),
            Samples::Float(words) => Ok(normalize_float(header, words)),
        },
    }
}

/// Takes every sample that is left off the reader.
fn drain(reader: &mut Reader) -> (words: Vec<Option<i32>>)
    ensures
        words@ == pending_samples(*old(reader)),
        container_header(*final(reader)) == container_header(*old(reader)),
{
    let mut words: Vec<Option<i32>> = Vec::new();
    let ghost all = pending_samples(*reader);
    loop
        invariant
            words@ + pending_samples(*reader) == all,
            all == pending_samples(*old(reader)),
            container_header(*reader) == container_header(*old(reader)),
        decreases pending_samples(*reader).len(),
    {
        let ghost before = pending_samples(*reader);
        match next_sample(reader) {
            Some(word) => {
                proof {
                    assert(before.len() > 0);
                    assert(words@.push(word) + before.drop_first() =~= words@ + before);
                }
                words.push(word);
            },
            None => {
                proof {
                    assert(before.len() == 0);
                    assert(words@ + before =~= words@);
                }
                return words;
            },
        }
    }
}

/// What a container with the header `header` and the integer samples
/// `words` decodes to.
pub open spec fn decoded_container(header: WavHeader, words: Seq<Option<i32>>) -> Result<
    DecodedView,
    AudioError,
> {
    match refusal(header) {
        Some(e) => Err(e),
        None => match header.sample_format {
            SampleFormat::Int => Ok(DecodedView::Audio { audio: int_audio(header, words) }),
            SampleFormat::Float => Ok(DecodedView::AwaitingFloats { header }),
        },
    }
}

/// A `Decoded` with its audio as a sequence.
pub enum DecodedView {
    Audio { audio: Seq<u32> },
    AwaitingFloats { header: WavHeader },
}

impl View for Decoded {
    type V = DecodedView;

    open spec fn view(&self) -> DecodedView {
        match self {
            Decoded::Audio { audio } => DecodedView::Audio { audio: audio@ },
            Decoded::AwaitingFloats { header } => DecodedView::AwaitingFloats { header: *header },
        }
    }
}

/// Reads a WAV container and normalises what it holds. Bytes that are no WAV
/// container are refused as such; then the header is checked as `normalize`
/// does. Integer samples are read and normalised. Single-precision samples
/// are left for the caller to read, who then calls `normalize` with them.
pub fn read_wav_from_bytes(data: Vec<u8>) -> (r: Result<Decoded, AudioError>)
    ensures
        match wav_contents(data@) {
            None => r matches Err(AudioError::Format { .. }),
            Some((header, words)) => match decoded_container(header, words) {
                Ok(decoded) => r matches Ok(d) && d@ == decoded,
                Err(e) => r == Err::<Decoded, AudioError>(e),
            },
        },
{
    let mut reader = match open(data) {
        Ok(reader) => reader,
        Err(error) => {
            return Err(AudioError::Format { detail: describe(&error) });
        },
    };
    let header = header_of(&reader);
    match check_header(&header) {
        Err(e) => Err(e),
        Ok(_) => match header.sample_format {
            SampleFormat::Int => {
                let words = drain(&mut reader);
                Ok(Decoded::Audio { audio: normalize_int(&header, &words) })
            },
            SampleFormat::Float => Ok(Decoded::AwaitingFloats { header }),
        },
    }
}

/// With another sample rate than 16000 Hz, audio is refused for its rate,
/// whatever its channels and samples.
pub proof fn law_rate_refused(header: WavHeader)
    requires
        header.sample_rate != 16000,
    ensures
        refusal(header) == Some(AudioError::SampleRate { rate: header.sample_rate }),
{
}

/// At 16000 Hz, audio with neither one channel nor two is refused for its
/// channels.
pub proof fn law_channels_refused(header: WavHeader)
    requires
        header.sample_rate == 16000,
        header.channels != 1,
        header.channels != 2,
    ensures
        refusal(header) == Some(AudioError::Channels { channels: header.channels }),
{
}

/// Integer audio has, once normalised, one sample for each sample of the
/// container where that has one channel, and one for each whole pair of
/// samples where it has two; and every one of them is finite.
pub proof fn law_int_audio(header: WavHeader, words: Seq<Option<i32>>)
    ensures
        header.channels == 1 ==> int_audio(header, words).len() == words.len(),
        header.channels == 2 ==> int_audio(header, words).len() == words.len() / 2,
        forall|i: int|
            0 <= i < int_audio(header, words).len() ==> finite(#[trigger] int_audio(header, words)[i]),
{
    assert(finite(0u32));
}

/// Single-precision audio has, once normalised, one sample for each sample
/// of the container where that has one channel, and one for each whole pair
/// of samples where it has two; and every one of them is finite. With one
/// channel, every finite sample is as it was in the container.
pub proof fn law_float_audio(header: WavHeader, words: Seq<Option<u32>>)
    ensures
        header.channels == 1 ==> float_audio(header, words).len() == words.len(),
        header.channels == 2 ==> float_audio(header, words).len() == words.len() / 2,
        forall|i: int|
            0 <= i < float_audio(header, words).len() ==> finite(
                #[trigger] float_audio(header, words)[i],
            ),
        forall|i: int|
            header.channels == 1 && 0 <= i < words.len() && finite(float_word(words[i]))
                ==> #[trigger] float_audio(header, words)[i] == float_word(words[i]),
{
    assert(finite(0u32));
}

/// A sample of integer audio of up to 24 bits is converted without any
/// rounding: the single-precision number is the sample over `2^(bits - 1)`
/// itself.
pub proof fn law_conversion_exact(word: Option<i32>, header: WavHeader)
    requires
        1 <= header.bits_per_sample <= 24,
        -0x80_0000 <= int_word(word) <= 0x80_0000,
    ensures
        denotes(converted(word, header), int_word(word), header.bits_per_sample - 1),
        finite(converted(word, header)),
{
    law_small_ratio(int_word(word), header.bits_per_sample - 1);
}

/// The mean of two samples of integer audio of up to 24 bits is formed
/// without any rounding: the single-precision number is the sum of the two
/// samples over `2^bits` itself.
pub proof fn law_stereo_exact(left: Option<i32>, right: Option<i32>, header: WavHeader)
    requires
        1 <= header.bits_per_sample <= 24,
        -0x80_0000 <= int_word(left) <= 0x80_0000,
        -0x80_0000 <= int_word(right) <= 0x80_0000,
    ensures
        denotes(
            safe_mean(converted(left, header), converted(right, header)),
            int_word(left) + int_word(right),
            header.bits_per_sample as int,
        ),
{
    law_mean_of_small_ratios(int_word(left), int_word(right), header.bits_per_sample - 1);
}

/// The header of the scratch file that carries audio to the external
/// recogniser: one channel, 16000 Hz, 16-bit integers.
pub fn scratch_header() -> (header: WavHeader)
    ensures
        header == (WavHeader {
            channels: 1,
            sample_rate: SAMPLE_RATE,
            bits_per_sample: 16,
            sample_format: SampleFormat::Int,
        }),
        refusal(header) is None,
{
    WavHeader {
        channels: 1,
        sample_rate: SAMPLE_RATE,
        bits_per_sample: 16,
        sample_format: SampleFormat::Int,
    }
}

/// Mono audio at 16000 Hz, each sample a single-precision number given by
/// its bit pattern. Every sample is finite.
pub struct AudioBuffer {
    samples: Vec<u32>,
}

impl View for AudioBuffer {
    type V = Seq<u32>;

    closed spec fn view(&self) -> Seq<u32> {
        self.samples@
    }
}

impl AudioBuffer {
    #[verifier::type_invariant]
    spec fn all_finite(self) -> bool {
        forall|i: int| 0 <= i < self.samples@.len() ==> finite(#[trigger] self.samples@[i])
    }

    /// Makes a buffer of the given samples, each made safe: a sample that is
    /// not finite becomes 0.0, and no other sample changes.
    pub fn seal(values: Vec<u32>) -> (buffer: Self)
        ensures
            buffer@.len() == values@.len(),
            forall|i: int| 0 <= i < values@.len() ==> buffer@[i] == sanitized(#[trigger] values@[i]),
            forall|i: int| 0 <= i < buffer@.len() ==> finite(#[trigger] buffer@[i]),
    {
        let mut samples: Vec<u32> = Vec::new();
        let mut i: usize = 0;
        while i < values.len()
            invariant
                i <= values.len(),
                samples@.len() == i,
                forall|k: int| 0 <= k < i ==> samples@[k] == sanitized(#[trigger] values@[k]),
            decreases values.len() - i,
        {
            let bits = values[i];
            if is_finite(bits) {
                samples.push(bits);
            } else {
                samples.push(0);
            }
            i += 1;
        }
        assert forall|k: int| 0 <= k < samples@.len() implies finite(#[trigger] samples@[k]) by {
            assert(samples@[k] == sanitized(values@[k]));
        }
        AudioBuffer { samples }
    }

    /// The samples, every one of them finite.
    pub fn samples(&self) -> (samples: &Vec<u32>)
        ensures
            samples@ == self@,
            forall|i: int| 0 <= i < samples@.len() ==> finite(#[trigger] samples@[i]),
    {
        proof {
            use_type_invariant(self);
        }
        &self.samples
    }

    /// The samples as 16-bit integers, as the scratch file holds them: each
    /// sample times 32767, without its fractional part.
    pub fn pcm16(&self) -> (pcm: Vec<i16>)
        ensures
            pcm@.len() == self@.len(),
            forall|i: int| 0 <= i < self@.len() ==> #[trigger] pcm@[i] == pcm16_of(self@[i]),
    {
        let mut pcm: Vec<i16> = Vec::new();
        let mut i: usize = 0;
        while i < self.samples.len()
            invariant
                i <= self.samples.len(),
                pcm@.len() == i,
                forall|k: int| 0 <= k < i ==> #[trigger] pcm@[k] == pcm16_of(self.samples@[k]),
            decreases self.samples.len() - i,
        {
            pcm.push(to_pcm16(self.samples[i]));
            i += 1;
        }
        pcm
    }

    /// The number of samples.
    pub fn len(&self) -> (n: usize)
        ensures
            n == self@.len(),
    {
        self.samples.len()
    }
}

impl AudioError {
    /// The message of this error. The text after the colon of a format
    /// error is the decoder's own.
    pub open spec fn spec_message(self) -> Seq<char> {
        match self {
            AudioError::Format { detail } => "WavReader error: "@ + detail@,
            AudioError::SampleRate { rate } => "WAV file must be 16kHz, found "@ + decimal(
                rate as nat,
            ),
            AudioError::Channels { channels } => "Unsupported channel count: "@ + decimal(
                channels as nat,
            ),
        }
    }

    /// The message of this error, for the caller to show.
    pub fn message(&self) -> (m: String)
        ensures
            m@ == self.spec_message(),
    {
        match self {
            AudioError::Format { detail } => concat2("WavReader error: ", detail.as_str()),
            AudioError::SampleRate { rate } => {
                let mut m = "WAV file must be 16kHz, found ".to_owned();
                push_decimal(&mut m, *rate as u64);
                m
            },
            AudioError::Channels { channels } => {
                let mut m = "Unsupported channel count: ".to_owned();
                push_decimal(&mut m, *channels as u64);
                m
            },
        }
    }
}

} // verus!
