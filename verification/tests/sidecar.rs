use voice_core::json::read_text_record;
use voice_core::model::{SherpaConfig, SherpaModelType};
use voice_core::sidecar::{
    build_args, choose_transcript, conclude, extract_structured_text, locate_binary, pick_first,
    scratch_file_name, scratch_file_name_for, ProcessOutput, SidecarError, HOTWORDS_FILE,
    SIDECAR_DIRECTORY, SIDECAR_PROGRAM,
};

fn config(kind: SherpaModelType) -> SherpaConfig {
    SherpaConfig {
        model_type: kind,
        encoder: Some("m/encoder.onnx".to_string()),
        decoder: Some("m/decoder.onnx".to_string()),
        joiner: Some("m/joiner.onnx".to_string()),
        sense_voice_model: Some("m/model.int8.onnx".to_string()),
        tokens: "m/tokens.txt".to_string(),
        _model_name: "m".to_string(),
    }
}

fn output(success: bool, code: Option<i32>, stderr: &str, stdout: &str) -> ProcessOutput {
    ProcessOutput {
        success,
        code,
        stderr: stderr.as_bytes().to_vec(),
        stdout: stdout.as_bytes().to_vec(),
    }
}

#[test]
fn sense_voice_arguments_in_order() {
    assert_eq!(
        build_args(&config(SherpaModelType::SenseVoice), None, "/tmp/a.wav"),
        vec![
            "--tokens=m/tokens.txt",
            "--sense-voice-model=m/model.int8.onnx",
            "--model-type=sense-voice",
            "--num-threads=4",
            "/tmp/a.wav",
        ]
    );
}

#[test]
fn hotwords_do_not_touch_other_kinds() {
    assert_eq!(
        build_args(&config(SherpaModelType::SenseVoice), Some("h.txt"), "a.wav"),
        build_args(&config(SherpaModelType::SenseVoice), None, "a.wav")
    );
    assert_eq!(
        build_args(&config(SherpaModelType::Whisper), Some("h.txt"), "a.wav"),
        build_args(&config(SherpaModelType::Whisper), None, "a.wav")
    );
}

#[test]
fn transducer_without_hotwords_decodes_greedily() {
    assert_eq!(
        build_args(&config(SherpaModelType::Transducer), None, "a.wav"),
        vec![
            "--tokens=m/tokens.txt",
            "--encoder=m/encoder.onnx",
            "--decoder=m/decoder.onnx",
            "--joiner=m/joiner.onnx",
            "--decoding-method=greedy_search",
            "--num-threads=4",
            "a.wav",
        ]
    );
}

#[test]
fn transducer_with_hotwords_uses_beam_search() {
    assert_eq!(
        build_args(&config(SherpaModelType::Transducer), Some("/data/hotwords.txt"), "a.wav"),
        vec![
            "--tokens=m/tokens.txt",
            "--encoder=m/encoder.onnx",
            "--decoder=m/decoder.onnx",
            "--joiner=m/joiner.onnx",
            "--hotwords-file=/data/hotwords.txt",
            "--hotwords-score=2.0",
            "--decoding-method=modified_beam_search",
            "--num-threads=4",
            "a.wav",
        ]
    );
}

#[test]
fn whisper_style_arguments_in_order() {
    assert_eq!(
        build_args(&config(SherpaModelType::Whisper), None, "a.wav"),
        vec![
            "--tokens=m/tokens.txt",
            "--whisper-encoder=m/encoder.onnx",
            "--whisper-decoder=m/decoder.onnx",
            "--whisper-language=en",
            "--whisper-task=transcribe",
            "--model-type=whisper",
            "--num-threads=4",
            "a.wav",
        ]
    );
}

#[test]
fn a_configuration_that_lacks_a_file_gets_no_kind_arguments() {
    let mut c = config(SherpaModelType::Transducer);
    c.joiner = None;
    assert_eq!(
        build_args(&c, Some("h.txt"), "a.wav"),
        vec!["--tokens=m/tokens.txt", "--num-threads=4", "a.wav"]
    );
    let mut c = config(SherpaModelType::Whisper);
    c.encoder = None;
    assert_eq!(build_args(&c, None, "a.wav"), vec!["--tokens=m/tokens.txt", "--num-threads=4", "a.wav"]);
    let mut c = config(SherpaModelType::SenseVoice);
    c.sense_voice_model = None;
    assert_eq!(build_args(&c, None, "a.wav"), vec!["--tokens=m/tokens.txt", "--num-threads=4", "a.wav"]);
}

#[test]
fn a_record_on_stderr_is_the_transcript() {
    let c = conclude(&output(true, Some(0), "{\"text\":\"hello world\"}", ""));
    assert!(c.remove_scratch);
    assert_eq!(c.result.unwrap(), "hello world");
}

#[test]
fn without_a_record_stdout_is_the_transcript() {
    let c = conclude(&output(true, Some(0), "loading model\ndone", "raw fallback"));
    assert!(c.remove_scratch);
    assert_eq!(c.result.unwrap(), "raw fallback");
    let c = conclude(&output(true, Some(0), "", "  \n raw fallback \r\n"));
    assert_eq!(c.result.unwrap(), "raw fallback");
    let c = conclude(&output(true, Some(0), "", ""));
    assert_eq!(c.result.unwrap(), "");
}

#[test]
fn stderr_is_searched_before_stdout() {
    let c = conclude(&output(
        true,
        Some(0),
        "log line\n{\"text\":\"from stderr\"}\n",
        "{\"text\":\"from stdout\"}",
    ));
    assert_eq!(c.result.unwrap(), "from stderr");
    let c = conclude(&output(true, Some(0), "log line\n{\"lang\":\"en\"}", "x\n{\"text\":\"from stdout\"}\ny"));
    assert_eq!(c.result.unwrap(), "from stdout");
}

#[test]
fn a_failed_run_keeps_the_scratch_file_and_reports_everything() {
    let c = conclude(&output(false, Some(3), "{\"text\":\"ignored\"}", "out"));
    assert!(!c.remove_scratch);
    match c.result {
        Err(SidecarError::Exit { code, stderr, stdout }) => {
            assert_eq!(code, Some(3));
            assert_eq!(stderr, "{\"text\":\"ignored\"}");
            assert_eq!(stdout, "out");
        }
        _ => panic!("no exit error"),
    }
}

#[test]
fn output_that_is_no_utf8_is_read_with_replacement_characters() {
    let run = ProcessOutput {
        success: true,
        code: Some(0),
        stderr: b"\xff\xfe log\n".to_vec(),
        stdout: b" caf\xe9 \n".to_vec(),
    };
    assert_eq!(conclude(&run).result.unwrap(), "caf\u{fffd}");
    let run = ProcessOutput {
        success: true,
        code: Some(0),
        stderr: b"\xc3\x28\n{\"text\":\"gr\xc3\xbc\xc3\x9fe\"}\n".to_vec(),
        stdout: Vec::new(),
    };
    assert_eq!(conclude(&run).result.unwrap(), "gr\u{fc}\u{df}e");
    let run = ProcessOutput {
        success: false,
        code: Some(2),
        stderr: b"bad \x80".to_vec(),
        stdout: b"\xe2\x98\x83".to_vec(),
    };
    match conclude(&run).result {
        Err(e) => assert_eq!(
            e.message(),
            "Sherpa exit code: Some(2). Stderr: bad \u{fffd}. Stdout: \u{2603}"
        ),
        Ok(_) => panic!("a failed run gave a transcript"),
    }
}

#[test]
fn the_first_line_with_a_text_field_wins() {
    let stream = "start\n{\"text\": 5}\n[1,2]\n{\"other\":\"x\"}\n{\"text\":\"first\",\"n\":1}\r\n{\"text\":\"second\"}\n";
    assert_eq!(extract_structured_text(stream).as_deref(), Some("first"));
    assert_eq!(extract_structured_text("no record here\nnor here"), None);
    assert_eq!(extract_structured_text(""), None);
    assert_eq!(extract_structured_text("{\"text\":\"a\nb\"}"), None);
    assert_eq!(extract_structured_text("  {\"text\":\"\"}  "), Some(String::new()));
}

#[test]
fn a_line_is_read_as_json_not_copied() {
    assert_eq!(read_text_record("{\"text\":\"a\\u0041\\n\\\"q\\\"\"}").as_deref(), Some("aA\n\"q\""));
    assert_eq!(read_text_record("{\"text\":\"x\"} trailing"), None);
    assert_eq!(read_text_record("{\"text\":null}"), None);
    assert_eq!(read_text_record("\"text\""), None);
    assert_eq!(read_text_record("{\"Text\":\"x\"}"), None);
    assert_eq!(read_text_record("{\"text\":\"one\",\"text\":\"two\"}").as_deref(), Some("two"));
    assert_eq!(read_text_record("{\"a\":{\"text\":\"inner\"}}"), None);
}

#[test]
fn the_first_present_record_is_picked() {
    assert_eq!(pick_first(&vec![None, Some("a".to_string()), Some("b".to_string())]).as_deref(), Some("a"));
    assert_eq!(pick_first(&vec![None, None]), None);
    assert_eq!(pick_first(&vec![]), None);
}

#[test]
fn the_transcript_is_chosen_by_precedence() {
    let s = |t: &str| Some(t.to_string());
    assert_eq!(choose_transcript(s("e"), s("o"), " raw "), "e");
    assert_eq!(choose_transcript(None, s("o"), " raw "), "o");
    assert_eq!(choose_transcript(None, None, " raw "), "raw");
    assert_eq!(choose_transcript(s(""), None, "raw"), "");
}

#[test]
fn the_packaged_binary_is_preferred() {
    assert_eq!(locate_binary("res/bin/x", true, "cwd/bin/x", true).unwrap(), "res/bin/x");
    assert_eq!(locate_binary("res/bin/x", true, "cwd/bin/x", false).unwrap(), "res/bin/x");
    assert_eq!(locate_binary("res/bin/x", false, "cwd/bin/x", true).unwrap(), "cwd/bin/x");
    assert!(matches!(
        locate_binary("res/bin/x", false, "cwd/bin/x", false),
        Err(SidecarError::BinaryNotFound)
    ));
}

#[test]
fn scratch_files_are_named_after_their_token() {
    assert_eq!(scratch_file_name_for("abc"), "temp_rec_abc.wav");
    let a = scratch_file_name();
    let b = scratch_file_name();
    assert_ne!(a, b);
    for name in [a, b] {
        assert!(name.starts_with("temp_rec_"));
        assert!(name.ends_with(".wav"));
        assert_eq!(name.chars().count(), 9 + 36 + 4);
    }
}

#[test]
fn sidecar_error_messages() {
    let e = SidecarError::Exit { code: Some(1), stderr: "bad".to_string(), stdout: "out".to_string() };
    assert_eq!(e.message(), "Sherpa exit code: Some(1). Stderr: bad. Stdout: out");
    let e = SidecarError::Exit { code: None, stderr: String::new(), stdout: String::new() };
    assert_eq!(e.message(), "Sherpa exit code: None. Stderr: . Stdout: ");
    let e = SidecarError::Exit { code: Some(-1073741819), stderr: "a".to_string(), stdout: "b".to_string() };
    assert_eq!(e.message(), format!("Sherpa exit code: {:?}. Stderr: a. Stdout: b", Some(-1073741819)));
    let e = SidecarError::Exit { code: Some(i32::MIN), stderr: String::new(), stdout: String::new() };
    assert_eq!(e.message(), format!("Sherpa exit code: {:?}. Stderr: . Stdout: ", Some(i32::MIN)));
    let e = SidecarError::Execution { detail: "not found".to_string() };
    assert_eq!(e.message(), "Failed to execute Sherpa process: not found");
    assert_eq!(SidecarError::BinaryNotFound.message(), "Sherpa binary not found");
}

#[test]
fn fixed_names() {
    assert_eq!(SIDECAR_DIRECTORY, "bin");
    assert_eq!(SIDECAR_PROGRAM, "sherpa-onnx-x86_64-pc-windows-msvc.exe");
    assert_eq!(HOTWORDS_FILE, "hotwords.txt");
}
