use vstd::prelude::*;
use crate::audio::{SampleFormat, WavHeader};

verus! {

/// `hound::WavReader`, a reader of WAV containers. Nothing of its inside is
/// known here.
#[verifier::external_type_specification]
#[verifier::external_body]
#[verifier::reject_recursive_types(R)]
pub struct ExWavReader<R>(hound::WavReader<R>);

/// `hound::Error`, the error of reading a WAV container. Nothing of its
/// inside is known here.
#[verifier::external_type_specification]
#[verifier::external_body]
pub struct ExWavError(hound::Error);

/// `std::io::Cursor`, which lets bytes in memory be read as a stream.
/// Nothing of its inside is known here.
#[verifier::external_type_specification]
#[verifier::external_body]
#[verifier::reject_recursive_types(T)]
pub struct ExCursor<T>(std::io::Cursor<T>);

/// A reader over a WAV container that is held in memory.
pub type Reader = hound::WavReader<std::io::Cursor<Vec<u8>>>;

/// What `bytes` holds as a WAV container: what its format chunk says, and
/// the samples of its data chunk as they come when read for integers,
/// channels interleaved, with `None` for a sample whose read fails. It is
/// `None` where `bytes` is no WAV container.
pub uninterp spec fn wav_contents(bytes: Seq<u8>) -> Option<(WavHeader, Seq<Option<i32>>)>;

/// What the format chunk of the container behind `reader` says.
pub uninterp spec fn container_header(reader: Reader) -> WavHeader;

/// The samples that `reader` has yet to give when it is read for integers,
/// channels interleaved; `None` stands for a sample whose read fails.
pub uninterp spec fn pending_samples(reader: Reader) -> Seq<Option<i32>>;

/// `hound::WavReader::new` on a cursor over `data`: reads the container's
/// chunks up to the start of the data chunk. It fails exactly where `data` is
/// no WAV container that hound reads; otherwise the reader carries the
/// header and has all the samples of `data` yet to give.
#[verifier::external_body]
pub(crate) fn open(data: Vec<u8>) -> (r: Result<Reader, hound::Error>)
    ensures
        r matches Ok(reader) ==> wav_contents(data@) == Some(
            (container_header(reader), pending_samples(reader)),
        ),
        r is Err ==> wav_contents(data@) is None,
{
    hound::WavReader::new(std::io::Cursor::new(data))
}

/// `hound::WavReader::spec`: the channel count, sample rate, bits per sample
/// and sample format of the container.
#[verifier::external_body]
pub(crate) fn header_of(reader: &Reader) -> (header: WavHeader)
    ensures
        header == container_header(*reader),
{
    let spec = reader.spec();
    WavHeader {
        channels: spec.channels,
        sample_rate: spec.sample_rate,
        bits_per_sample: spec.bits_per_sample,
        sample_format: match spec.sample_format {
            hound::SampleFormat::Int => SampleFormat::Int,
            hound::SampleFormat::Float => SampleFormat::Float,
        },
    }
}

/// `hound::WavReader::samples` at `i32` and one `next` of its iterator: takes
/// the next sample off the reader. It gives `None` once every sample has been
/// taken, and `Some(None)` for a sample whose read fails. The header stays.
#[verifier::external_body]
pub(crate) fn next_sample(reader: &mut Reader) -> (r: Option<Option<i32>>)
    ensures
        container_header(*final(reader)) == container_header(*old(reader)),
        pending_samples(*old(reader)).len() == 0 ==> r is None && pending_samples(*final(reader))
            == pending_samples(*old(reader)),
        pending_samples(*old(reader)).len() > 0 ==> r == Some(pending_samples(*old(reader))[0])
            && pending_samples(*final(reader)) == pending_samples(*old(reader)).drop_first(),
{
    reader.samples::<i32>().next().map(|sample| sample.ok())
}

/// The `Display` of `hound::Error`: the text of the error. Nothing is
/// claimed of the text.
#[verifier::external_body]
pub(crate) fn describe(error: &hound::Error) -> (text: String) {
    format!("{}", error)
}

} // verus!
