use voice_core::engine::{AppState, Backend, EngineError, TranscriptionEngine, DEFAULT_MODEL_LABEL};
use voice_core::model::{SherpaConfig, SherpaModelType};

fn config(kind: SherpaModelType, name: &str) -> SherpaConfig {
    SherpaConfig {
        model_type: kind,
        encoder: None,
        decoder: None,
        joiner: None,
        sense_voice_model: Some("m/model.int8.onnx".to_string()),
        tokens: "m/tokens.txt".to_string(),
        _model_name: name.to_string(),
    }
}

#[test]
fn a_new_state_has_nothing_loaded() {
    let state: AppState<u32> = AppState::new();
    assert_eq!(state.current_model(), "None");
    assert!(matches!(state.engine(), TranscriptionEngine::Unloaded));
    assert!(matches!(state.backend(), Err(EngineError::NoEngineLoaded)));
}

#[test]
fn loading_an_external_model_replaces_engine_and_label() {
    let mut state: AppState<u32> = AppState::new();
    let loaded = state.load_external(config(SherpaModelType::SenseVoice, "sv"));
    assert_eq!(loaded.label, "sv");
    assert_eq!(loaded.notice, "SenseVoice Loaded");
    assert_eq!(state.current_model(), "sv");
    match state.backend() {
        Ok(Backend::External(c)) => assert_eq!(c._model_name, "sv"),
        _ => panic!("no external backend"),
    }
    let loaded = state.load_external(config(SherpaModelType::Transducer, "tr"));
    assert_eq!(loaded.notice, "Sherpa Model Loaded");
    assert_eq!(state.current_model(), "tr");
    let loaded = state.load_external(config(SherpaModelType::Whisper, "wh"));
    assert_eq!(loaded.notice, "Sherpa Model Loaded");
    assert_eq!(loaded.label, "wh");
}

#[test]
fn loading_an_embedded_model_installs_the_handle() {
    let mut state: AppState<u32> = AppState::new();
    let loaded = state.load_embedded(Ok(7), "ggml-base.en.bin").unwrap();
    assert_eq!(loaded.label, "ggml-base.en.bin");
    assert_eq!(loaded.notice, "Whisper Model Loaded");
    assert_eq!(state.current_model(), "ggml-base.en.bin");
    assert!(matches!(state.backend(), Ok(Backend::Embedded(7))));
}

#[test]
fn a_failed_instantiation_leaves_the_state_untouched() {
    let mut state: AppState<u32> = AppState::new();
    state.load_external(config(SherpaModelType::SenseVoice, "sv"));
    let err = state.load_embedded(Err("file is no model".to_string()), "x.bin").err().unwrap();
    assert_eq!(err.message(), "Failed to load Whisper model: file is no model");
    assert_eq!(state.current_model(), "sv");
    assert!(matches!(state.engine(), TranscriptionEngine::Sherpa(_)));

    let mut state: AppState<u32> = AppState::new();
    state.load_embedded(Ok(1), "a.bin").unwrap();
    assert_eq!(state.load_default(Err("nope".to_string())).err(), Some("nope".to_string()));
    assert_eq!(state.current_model(), "a.bin");
    assert!(matches!(state.backend(), Ok(Backend::Embedded(1))));
}

#[test]
fn the_default_model_has_its_own_label() {
    let mut state: AppState<u32> = AppState::new();
    let loaded = state.load_default(Ok(9)).unwrap();
    assert_eq!(loaded.label, "Whisper Base (Local)");
    assert_eq!(loaded.notice, "Whisper Base (Local)");
    assert_eq!(DEFAULT_MODEL_LABEL, "Whisper Base (Local)");
    assert_eq!(state.current_model(), "Whisper Base (Local)");
    assert!(matches!(state.backend(), Ok(Backend::Embedded(9))));
}

#[test]
fn reading_the_backend_changes_nothing() {
    let mut state: AppState<u32> = AppState::new();
    state.load_embedded(Ok(3), "m").unwrap();
    for _ in 0..3 {
        assert!(matches!(state.backend(), Ok(Backend::Embedded(3))));
        assert_eq!(state.current_model(), "m");
    }
}

#[test]
fn engine_error_messages() {
    assert_eq!(EngineError::NoEngineLoaded.message(), "No model loaded");
    assert_eq!(EngineError::Lock.message(), "Failed to lock state");
    assert_eq!(
        EngineError::Instantiation { detail: "d".to_string() }.message(),
        "Failed to load Whisper model: d"
    );
}
