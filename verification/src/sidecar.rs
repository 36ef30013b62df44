use vstd::prelude::*;
use crate::model::{SherpaConfig, SherpaConfigView, SherpaModelType};
use crate::json::{read_text_record, text_record};
use crate::model::opt_view;
use crate::text::{
    concat2, first_line, lines_of, lossy_text, push_signed_decimal, split_lines, text_of_bytes,
    trim, trimmed,
};
use vstd::string::*;

verus! {

/// The directory, below the application's resources or the working
/// directory, that holds the recogniser's program.
pub const SIDECAR_DIRECTORY: &'static str = "bin";

/// The file name of the recogniser's program.
pub const SIDECAR_PROGRAM: &'static str = "sherpa-onnx-x86_64-pc-windows-msvc.exe";

/// The file name of the hotwords list, below the application's data.
pub const HOTWORDS_FILE: &'static str = "hotwords.txt";

/// `uuid::Uuid::new_v4` and the `Display` of `uuid::Uuid`: a fresh random
/// identifier in hyphenated form, which is 36 characters long. Which
/// identifier comes is left open.
#[verifier::external_body]
fn fresh_token() -> (token: String)
    ensures
        token@.len() == 36,
{
    uuid::Uuid::new_v4().to_string()
}

/// The name of the scratch audio file that carries `token`.
pub open spec fn scratch_name(token: Seq<char>) -> Seq<char> {
    "temp_rec_"@ + token + ".wav"@
}

/// The name of the scratch audio file that carries `token`.
pub fn scratch_file_name_for(token: &str) -> (name: String)
    ensures
        name@ == scratch_name(token@),
{
    let mut name = "temp_rec_".to_owned();
    name.append(token);
    name.append(".wav");
    name
}

/// A name for the scratch audio file of one run, with a fresh identifier in
/// it so that no two runs share a file.
pub fn scratch_file_name() -> (name: String)
    ensures
        exists|token: Seq<char>| token.len() == 36 && name@ == #[trigger] scratch_name(token),
{
    let token = fresh_token();
    scratch_file_name_for(token.as_str())
}

/// The characters of an optional string slice.
pub open spec fn opt_str_view(s: Option<&str>) -> Option<Seq<char>> {
    match s {
        Some(t) => Some(t@),
        None => None,
    }
}

/// The arguments that choose how a transducer decodes: with a hotwords file,
/// the file, its bias score and beam search; without one, greedy search.
pub open spec fn decoding_args(hotwords: Option<Seq<char>>) -> Seq<Seq<char>> {
    match hotwords {
        Some(path) => seq![
            "--hotwords-file="@ + path,
            "--hotwords-score=2.0"@,
            "--decoding-method=modified_beam_search"@,
        ],
        None => seq!["--decoding-method=greedy_search"@],
    }
}

/// The arguments that depend on the kind of model. A configuration that lacks
/// a file its kind needs contributes none.
pub open spec fn kind_args(config: SherpaConfigView, hotwords: Option<Seq<char>>) -> Seq<
    Seq<char>,
> {
    match config.model_type {
        SherpaModelType::SenseVoice => match config.sense_voice_model {
            Some(model) => seq!["--sense-voice-model="@ + model, "--model-type=sense-voice"@],
            None => Seq::empty(),
        },
        SherpaModelType::Transducer => match (config.encoder, config.decoder, config.joiner) {
            (Some(encoder), Some(decoder), Some(joiner)) => seq![
                "--encoder="@ + encoder,
                "--decoder="@ + decoder,
                "--joiner="@ + joiner,
            ] + decoding_args(hotwords),
            _ => Seq::empty(),
        },
        SherpaModelType::Whisper => match (config.encoder, config.decoder) {
            (Some(encoder), Some(decoder)) => seq![
                "--whisper-encoder="@ + encoder,
                "--whisper-decoder="@ + decoder,
                "--whisper-language=en"@,
                "--whisper-task=transcribe"@,
                "--model-type=whisper"@,
            ],
            _ => Seq::empty(),
        },
    }
}

/// The whole argument list of one run of the external recogniser: the tokens
/// file, the arguments of the model's kind, the thread count, and last the
/// path of the audio file.
pub open spec fn sidecar_args(
    config: SherpaConfigView,
    hotwords: Option<Seq<char>>,
    wav_path: Seq<char>,
) -> Seq<Seq<char>> {
    seq!["--tokens="@ + config.tokens] + kind_args(config, hotwords) + seq![
        "--num-threads=4"@,
        wav_path,
    ]
}

/// Appends one argument.
fn push_arg(args: &mut Vec<String>, arg: String)
    ensures
        final(args).deep_view() == old(args).deep_view().push(arg@),
{
    args.push(arg);
    assert(args.deep_view() =~= old(args).deep_view().push(arg@));
}

/// Appends the argument `name` directly followed by `value`.
fn push_flag(args: &mut Vec<String>, name: &str, value: &str)
    ensures
        final(args).deep_view() == old(args).deep_view().push(name@ + value@),
{
    push_arg(args, concat2(name, value));
}

/// Appends a fixed argument.
fn push_word(args: &mut Vec<String>, word: &str)
    ensures
        final(args).deep_view() == old(args).deep_view().push(word@),
{
    push_arg(args, word.to_owned());
}

/// Builds the argument list for one run of the external recogniser.
/// `hotwords_file` is the path of the hotwords file where that file exists.
pub fn build_args(config: &SherpaConfig, hotwords_file: Option<&str>, wav_path: &str) -> (args:
    Vec<String>)
    ensures
        args.deep_view() == sidecar_args(config@, opt_str_view(hotwords_file), wav_path@),
{
    let mut args: Vec<String> = Vec::new();
    assert(args.deep_view() =~= Seq::<Seq<char>>::empty());
    push_flag(&mut args, "--tokens=", config.tokens.as_str());
    let ghost head = args.deep_view();
    assert(head =~= seq!["--tokens="@ + config@.tokens]);
    match config.model_type {
        SherpaModelType::SenseVoice => {
            if let Some(model) = &config.sense_voice_model {
                push_flag(&mut args, "--sense-voice-model=", model.as_str());
                push_word(&mut args, "--model-type=sense-voice");
            }
        },
        SherpaModelType::Transducer => {
            if let (Some(encoder), Some(decoder), Some(joiner)) = (
                &config.encoder,
                &config.decoder,
                &config.joiner,
            ) {
                push_flag(&mut args, "--encoder=", encoder.as_str());
                push_flag(&mut args, "--decoder=", decoder.as_str());
                push_flag(&mut args, "--joiner=", joiner.as_str());
                match hotwords_file {
                    Some(path) => {
                        push_flag(&mut args, "--hotwords-file=", path);
                        push_word(&mut args, "--hotwords-score=2.0");
                        push_word(&mut args, "--decoding-method=modified_beam_search");
                    },
                    None => {
                        push_word(&mut args, "--decoding-method=greedy_search");
                    },
                }
            }
        },
        SherpaModelType::Whisper => {
            if let (Some(encoder), Some(decoder)) = (&config.encoder, &config.decoder) {
                push_flag(&mut args, "--whisper-encoder=", encoder.as_str());
                push_flag(&mut args, "--whisper-decoder=", decoder.as_str());
                push_word(&mut args, "--whisper-language=en");
                push_word(&mut args, "--whisper-task=transcribe");
                push_word(&mut args, "--model-type=whisper");
            }
        },
    }
    assert(args.deep_view() =~= head + kind_args(config@, opt_str_view(hotwords_file)));
    push_word(&mut args, "--num-threads=4");
    push_word(&mut args, wav_path);
    assert(args.deep_view() =~= sidecar_args(config@, opt_str_view(hotwords_file), wav_path@));
    args
}

/// The first of `records` that is present.
pub open spec fn first_present(records: Seq<Option<Seq<char>>>) -> Option<Seq<char>>
    decreases records.len(),
{
    if records.len() == 0 {
        None
    } else if records[0] is Some {
        records[0]
    } else {
        first_present(records.skip(1))
    }
}

/// The transcript that a stream of the recogniser's output carries: the
/// `text` field of the first of its lines that is a structured record with
/// such a field.
pub open spec fn structured_text(stream: Seq<char>) -> Option<Seq<char>> {
    first_present(split_lines(stream).map_values(|line: Seq<char>| text_record(line)))
}

/// The transcript of a successful run: what standard error carries, else
/// what standard output carries, else standard output itself, trimmed.
pub open spec fn transcript_of(
    from_stderr: Option<Seq<char>>,
    from_stdout: Option<Seq<char>>,
    stdout: Seq<char>,
) -> Seq<char> {
    match from_stderr {
        Some(text) => text,
        None => match from_stdout {
            Some(text) => text,
            None => trimmed(stdout),
        },
    }
}

/// A record on standard error is the transcript, whatever standard output
/// holds.
pub proof fn law_stderr_first(stderr: Seq<char>, stdout: Seq<char>)
    requires
        structured_text(stderr) is Some,
    ensures
        transcript_of(structured_text(stderr), structured_text(stdout), stdout) == structured_text(
            stderr,
        ).unwrap(),
{
}

/// Where neither stream holds a record, the transcript is standard output,
/// trimmed.
pub proof fn law_raw_fallback(stderr: Seq<char>, stdout: Seq<char>)
    requires
        structured_text(stderr) is None,
        structured_text(stdout) is None,
    ensures
        transcript_of(structured_text(stderr), structured_text(stdout), stdout) == trimmed(stdout),
{
}

/// A stream whose first line is a record with a `text` field carries that
/// field.
pub proof fn law_record_on_first_line(stream: Seq<char>)
    requires
        stream.len() > 0,
        text_record(first_line(stream)) is Some,
    ensures
        structured_text(stream) == text_record(first_line(stream)),
{
    let lines = split_lines(stream);
    assert(lines[0] == first_line(stream));
    let records = lines.map_values(|line: Seq<char>| text_record(line));
    assert(records[0] == text_record(lines[0]));
}

/// Picks the first record that is present.
pub fn pick_first(records: &Vec<Option<String>>) -> (r: Option<String>)
    ensures
        opt_view(r) == first_present(records@.map_values(|t: Option<String>| opt_view(t))),
{
    let ghost all = records@.map_values(|t: Option<String>| opt_view(t));
    let mut i: usize = 0;
    assert(all.skip(0) =~= all);
    while i < records.len()
        invariant
            i <= records.len(),
            all == records@.map_values(|t: Option<String>| opt_view(t)),
            first_present(all) == first_present(all.skip(i as int)),
        decreases records.len() - i,
    {
        proof {
            assert(all.skip(i as int)[0] == opt_view(records@[i as int]));
            assert(all.skip(i as int).skip(1) =~= all.skip(i + 1));
        }
        match &records[i] {
            Some(text) => {
                return Some(text.clone());
            },
            None => {},
        }
        i += 1;
    }
    None
}

/// Scans one output stream of the recogniser, line by line, for a structured
/// record with a `text` field, and returns the first such field.
pub fn extract_structured_text(stream: &str) -> (r: Option<String>)
    ensures
        opt_view(r) == structured_text(stream@),
{
    let lines = lines_of(stream);
    let mut records: Vec<Option<String>> = Vec::new();
    let mut i: usize = 0;
    while i < lines.len()
        invariant
            i <= lines.len(),
            lines.deep_view() == split_lines(stream@),
            records@.len() == i,
            forall|k: int| 0 <= k < i ==> opt_view(#[trigger] records@[k]) == text_record(split_lines(stream@)[k]),
        decreases lines.len() - i,
    {
        assert(lines.deep_view()[i as int] == lines@[i as int]@);
        let record = read_text_record(lines[i].as_str());
        records.push(record);
        i += 1;
    }
    assert(records@.map_values(|t: Option<String>| opt_view(t)) =~= split_lines(stream@).map_values(
        |line: Seq<char>| text_record(line),
    ));
    pick_first(&records)
}

/// Settles the transcript of a successful run from what each stream carried.
pub fn choose_transcript(
    from_stderr: Option<String>,
    from_stdout: Option<String>,
    stdout: &str,
) -> (r: String)
    ensures
        r@ == transcript_of(opt_view(from_stderr), opt_view(from_stdout), stdout@),
{
    match from_stderr {
        Some(text) => text,
        None => match from_stdout {
            Some(text) => text,
            None => trim(stdout),
        },
    }
}

/// How a run of the external recogniser ended, and what it wrote.
pub struct ProcessOutput {
    /// Whether the process reported success.
    pub success: bool,
    /// The exit code, where the process had one.
    pub code: Option<i32>,
    /// The bytes written to standard error.
    pub stderr: Vec<u8>,
    /// The bytes written to standard output.
    pub stdout: Vec<u8>,
}

/// Why a run of the external recogniser gave no transcript.
#[derive(Debug)]
pub enum SidecarError {
    /// The recogniser's program is at neither of the two places looked at.
    BinaryNotFound,
    /// The process could not be started or waited for.
    Execution { detail: String },
    /// The process ended without success.
    Exit { code: Option<i32>, stderr: String, stdout: String },
}

/// What to do after a run: whether the scratch audio file goes, and what the
/// caller gets.
pub struct Conclusion {
    pub remove_scratch: bool,
    pub result: Result<String, SidecarError>,
}

/// What a run of the recogniser yields. Both streams are read as text, with
/// U+FFFD for what is no UTF-8. A run without success fails with the exit
/// code and both texts, and the scratch file stays; a successful one gives
/// the transcript of `transcript_of`, and the scratch file goes.
pub open spec fn concluded(output: ProcessOutput, conclusion: Conclusion) -> bool {
    let stderr_text = lossy_text(output.stderr@);
    let stdout_text = lossy_text(output.stdout@);
    &&& conclusion.remove_scratch == output.success
    &&& output.success ==> (conclusion.result matches Ok(text) && text@ == transcript_of(
        structured_text(stderr_text),
        structured_text(stdout_text),
        stdout_text,
    ))
    &&& !output.success ==> (conclusion.result matches Err(
        SidecarError::Exit { code, stderr, stdout },
    ) && code == output.code && stderr@ == stderr_text && stdout@ == stdout_text)
}

/// A run that ended with success always yields a transcript, and one that
/// ended without success never does.
pub proof fn law_only_exit_is_fatal(output: ProcessOutput, conclusion: Conclusion)
    requires
        concluded(output, conclusion),
    ensures
        conclusion.result is Ok <==> output.success,
        conclusion.remove_scratch <==> output.success,
{
}

/// Decides what a finished run of the recogniser means.
pub fn conclude(output: &ProcessOutput) -> (conclusion: Conclusion)
    ensures
        concluded(*output, conclusion),
{
    let stderr = text_of_bytes(&output.stderr);
    let stdout = text_of_bytes(&output.stdout);
    if !output.success {
        return Conclusion {
            remove_scratch: false,
            result: Err(SidecarError::Exit { code: output.code, stderr, stdout }),
        };
    }
    let from_stderr = extract_structured_text(stderr.as_str());
    let from_stdout = if from_stderr.is_some() {
        None
    } else {
        extract_structured_text(stdout.as_str())
    };
    let text = choose_transcript(from_stderr, from_stdout, stdout.as_str());
    Conclusion { remove_scratch: true, result: Ok(text) }
}

/// Where the recogniser's program is: the packaged place if it exists there,
/// else the development place if it exists there.
pub open spec fn located(
    packaged: Seq<char>,
    packaged_exists: bool,
    development: Seq<char>,
    development_exists: bool,
) -> Option<Seq<char>> {
    if packaged_exists {
        Some(packaged)
    } else if development_exists {
        Some(development)
    } else {
        None
    }
}

/// Chooses between the two places where the recogniser's program may be.
pub fn locate_binary(
    packaged: &str,
    packaged_exists: bool,
    development: &str,
    development_exists: bool,
) -> (r: Result<String, SidecarError>)
    ensures
        match located(packaged@, packaged_exists, development@, development_exists) {
            Some(path) => r matches Ok(p) && p@ == path,
            None => r matches Err(SidecarError::BinaryNotFound),
        },
{
    if packaged_exists {
        Ok(packaged.to_owned())
    } else if development_exists {
        Ok(development.to_owned())
    } else {
        Err(SidecarError::BinaryNotFound)
    }
}

/// An exit code as the message shows it.
pub open spec fn code_text(code: Option<i32>) -> Seq<char> {
    match code {
        Some(c) => "Some("@ + crate::text::signed_decimal(c as int) + ")"@,
        None => "None"@,
    }
}

impl SidecarError {
    /// The message of this error.
    pub open spec fn spec_message(self) -> Seq<char> {
        match self {
            SidecarError::BinaryNotFound => "Sherpa binary not found"@,
            SidecarError::Execution { detail } => "Failed to execute Sherpa process: "@ + detail@,
            SidecarError::Exit { code, stderr, stdout } => "Sherpa exit code: "@ + code_text(code)
                + ". Stderr: "@ + stderr@ + ". Stdout: "@ + stdout@,
        }
    }

    /// The message of this error, for the caller to show.
    pub fn message(&self) -> (m: String)
        ensures
            m@ == self.spec_message(),
    {
        match self {
            SidecarError::BinaryNotFound => "Sherpa binary not found".to_owned(),
            SidecarError::Execution { detail } => concat2(
                "Failed to execute Sherpa process: ",
                detail.as_str(),
            ),
            SidecarError::Exit { code, stderr, stdout } => {
                let mut m = "Sherpa exit code: ".to_owned();
                match code {
                    Some(c) => {
                        m.append("Some(");
                        push_signed_decimal(&mut m, *c as i64);
                        m.append(")");
                    },
                    None => {
                        m.append("None");
                    },
                }
                m.append(". Stderr: ");
                m.append(stderr.as_str());
                m.append(". Stdout: ");
                m.append(stdout.as_str());
                assert(m@ =~= self.spec_message());
                m
            },
        }
    }
}

} // verus!
