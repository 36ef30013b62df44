use vstd::prelude::*;
use vstd::string::*;
use crate::text::{
    chars_of, concat2, lemma_remove_absent, lemma_trimmed_twice, occurs, remove_all, string_of,
    strip_all, trim_bounds, trim_chars, trimmed,
};

verus! {

/// The number of worker threads the in-process model decodes with.
pub const DECODE_THREADS: i32 = 4;

/// The number of candidates greedy decoding keeps.
pub const GREEDY_BEST_OF: i32 = 1;

/// `text` without the markers that the in-process model writes where it
/// heard no speech. The text is trimmed, the markers are taken out one after
/// the other, each wherever it occurs and exactly as written, and the text is
/// trimmed again; what stood around a marker stays as it was.
pub open spec fn scrubbed(text: Seq<char>) -> Seq<char> {
    let t0 = trimmed(text);
    let t1 = remove_all(t0, "[BLANK_AUDIO]"@);
    let t2 = remove_all(t1, "[silence]"@);
    let t3 = remove_all(t2, "(music)"@);
    let t4 = remove_all(t3, "[MUSIC]"@);
    let t5 = remove_all(t4, "(silence)"@);
    trimmed(t5)
}

/// Whether one of the no-speech markers occurs in `text`.
pub open spec fn has_marker(text: Seq<char>) -> bool {
    ||| occurs(text, "[BLANK_AUDIO]"@)
    ||| occurs(text, "[silence]"@)
    ||| occurs(text, "(music)"@)
    ||| occurs(text, "[MUSIC]"@)
    ||| occurs(text, "(silence)"@)
}

/// A text that holds no marker is trimmed and not changed otherwise: runs of
/// spaces inside it, and whatever else it holds, stay as they are.
pub proof fn law_plain_text_only_trimmed(text: Seq<char>)
    requires
        !has_marker(trimmed(text)),
    ensures
        scrubbed(text) == trimmed(text),
{
    let t = trimmed(text);
    lemma_remove_absent(t, "[BLANK_AUDIO]"@);
    lemma_remove_absent(t, "[silence]"@);
    lemma_remove_absent(t, "(music)"@);
    lemma_remove_absent(t, "[MUSIC]"@);
    lemma_remove_absent(t, "(silence)"@);
    lemma_trimmed_twice(text);
}

/// Takes the no-speech markers out of `text` and trims it.
pub fn scrub(text: &str) -> (r: String)
    ensures
        r@ == scrubbed(text@),
{
    let t0 = trim_chars(&chars_of(text));
    let t1 = strip_all(&t0, &chars_of("[BLANK_AUDIO]"));
    let t2 = strip_all(&t1, &chars_of("[silence]"));
    let t3 = strip_all(&t2, &chars_of("(music)"));
    let t4 = strip_all(&t3, &chars_of("[MUSIC]"));
    let t5 = strip_all(&t4, &chars_of("(silence)"));
    let (c, d) = trim_bounds(&t5);
    string_of(&t5, c, d)
}

/// The text of one segment; a segment that could not be read has none.
pub open spec fn segment_text(segment: Option<String>) -> Seq<char> {
    match segment {
        Some(text) => text@,
        None => Seq::empty(),
    }
}

/// The texts of the segments, one after the other.
pub open spec fn joined(segments: Seq<Option<String>>) -> Seq<char>
    decreases segments.len(),
{
    if segments.len() == 0 {
        Seq::empty()
    } else {
        joined(segments.drop_last()) + segment_text(segments.last())
    }
}

/// Puts the segments of one decoding together, in the order they came, and
/// cleans the result.
pub fn assemble(segments: &Vec<Option<String>>) -> (r: String)
    ensures
        r@ == scrubbed(joined(segments@)),
{
    let mut text = String::new();
    let mut i: usize = 0;
    while i < segments.len()
        invariant
            i <= segments.len(),
            text@ == joined(segments@.take(i as int)),
        decreases segments.len() - i,
    {
        proof {
            assert(segments@.take(i + 1).drop_last() =~= segments@.take(i as int));
        }
        match &segments[i] {
            Some(segment) => {
                text.append(segment.as_str());
            },
            None => {
                assert(text@ + Seq::<char>::empty() =~= text@);
            },
        }
        i += 1;
    }
    assert(segments@.take(segments.len() as int) =~= segments@);
    scrub(text.as_str())
}

/// How one decoding by the in-process model went, stage by stage.
pub enum EmbeddedRun {
    /// The model handle gave no session.
    SessionRefused { detail: String },
    /// Decoding the audio failed.
    DecodeFailed { detail: String },
    /// Decoding went through, but the number of segments could not be had.
    SegmentsUnknown { detail: String },
    /// Decoding went through; each segment is its text, or nothing where its
    /// text could not be had.
    Segments { segments: Vec<Option<String>> },
}

/// Why the in-process model gave no transcript.
#[derive(Debug)]
pub enum EmbeddedError {
    Session { detail: String },
    Decode { detail: String },
    Segments { detail: String },
}

impl EmbeddedError {
    /// The message of this error.
    pub open spec fn spec_message(self) -> Seq<char> {
        match self {
            EmbeddedError::Session { detail } => "Failed to create Whisper state: "@ + detail@,
            EmbeddedError::Decode { detail } => "Whisper error: "@ + detail@,
            EmbeddedError::Segments { detail } => "Error getting segments: "@ + detail@,
        }
    }

    /// The message of this error, for the caller to show.
    pub fn message(&self) -> (m: String)
        ensures
            m@ == self.spec_message(),
    {
        match self {
            EmbeddedError::Session { detail } => concat2(
                "Failed to create Whisper state: ",
                detail.as_str(),
            ),
            EmbeddedError::Decode { detail } => concat2("Whisper error: ", detail.as_str()),
            EmbeddedError::Segments { detail } => concat2(
                "Error getting segments: ",
                detail.as_str(),
            ),
        }
    }
}

/// What one decoding yields: the cleaned transcript where every stage went
/// through, else the error of the stage that failed and no text at all.
pub open spec fn finished(run: EmbeddedRun, r: Result<String, EmbeddedError>) -> bool {
    match run {
        EmbeddedRun::SessionRefused { detail } => r matches Err(EmbeddedError::Session { detail: d })
            && d@ == detail@,
        EmbeddedRun::DecodeFailed { detail } => r matches Err(EmbeddedError::Decode { detail: d })
            && d@ == detail@,
        EmbeddedRun::SegmentsUnknown { detail } => r matches Err(
            EmbeddedError::Segments { detail: d },
        ) && d@ == detail@,
        EmbeddedRun::Segments { segments } => r matches Ok(text) && text@ == scrubbed(
            joined(segments@),
        ),
    }
}

/// Turns the outcome of one decoding into the transcript or the error.
pub fn finish(run: EmbeddedRun) -> (r: Result<String, EmbeddedError>)
    ensures
        finished(run, r),
{
    match run {
        EmbeddedRun::SessionRefused { detail } => Err(EmbeddedError::Session { detail }),
        EmbeddedRun::DecodeFailed { detail } => Err(EmbeddedError::Decode { detail }),
        EmbeddedRun::SegmentsUnknown { detail } => Err(EmbeddedError::Segments { detail }),
        EmbeddedRun::Segments { segments } => Ok(assemble(&segments)),
    }
}

} // verus!
