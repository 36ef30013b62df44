use vstd::prelude::*;
use vstd::string::*;
use crate::model::{SherpaConfig, SherpaModelType};
use crate::text::concat2;

verus! {

/// The label of the model that `load_default` installs.
pub const DEFAULT_MODEL_LABEL: &'static str = "Whisper Base (Local)";

/// The recogniser that is in use: the in-process model behind a handle `H`,
/// the external recogniser with its configuration, or none yet.
pub enum TranscriptionEngine<H> {
    Whisper(H),
    Sherpa(SherpaConfig),
    Unloaded,
}

/// The recogniser in use together with the name of its model. The two change
/// together, and only by a load.
pub struct AppState<H> {
    engine: TranscriptionEngine<H>,
    current_model_name: String,
}

/// What a successful load reports.
pub struct Loaded {
    /// The name of the model now in use.
    pub label: String,
    /// The acknowledgement for the caller to show.
    pub notice: String,
}

/// Why a load or a transcription could not go ahead.
#[derive(Debug)]
pub enum EngineError {
    /// The in-process model could not be brought up from its file.
    Instantiation { detail: String },
    /// The state was not to be had, because a holder of it had failed.
    Lock,
    /// A transcription was asked for before any model was loaded.
    NoEngineLoaded,
}

/// The recogniser that a transcription is to run on.
pub enum Backend<'a, H> {
    Embedded(&'a H),
    External(&'a SherpaConfig),
}

/// The acknowledgement of a load of the external recogniser.
pub open spec fn external_notice(kind: SherpaModelType) -> Seq<char> {
    if kind == SherpaModelType::SenseVoice {
        "SenseVoice Loaded"@
    } else {
        "Sherpa Model Loaded"@
    }
}

impl EngineError {
    /// The message of this error.
    pub open spec fn spec_message(self) -> Seq<char> {
        match self {
            EngineError::Instantiation { detail } => "Failed to load Whisper model: "@ + detail@,
            EngineError::Lock => "Failed to lock state"@,
            EngineError::NoEngineLoaded => "No model loaded"@,
        }
    }

    /// The message of this error, for the caller to show.
    pub fn message(&self) -> (m: String)
        ensures
            m@ == self.spec_message(),
    {
        match self {
            EngineError::Instantiation { detail } => concat2(
                "Failed to load Whisper model: ",
                detail.as_str(),
            ),
            EngineError::Lock => "Failed to lock state".to_owned(),
            EngineError::NoEngineLoaded => "No model loaded".to_owned(),
        }
    }
}

impl<H> AppState<H> {
    /// The recogniser in use.
    pub closed spec fn engine_of(self) -> TranscriptionEngine<H> {
        self.engine
    }

    /// The name of the model in use.
    pub closed spec fn label(self) -> Seq<char> {
        self.current_model_name@
    }

    /// The state of a process that has loaded nothing yet.
    pub fn new() -> (state: Self)
        ensures
            state.engine_of() is Unloaded,
            state.label() == "None"@,
    {
        AppState { engine: TranscriptionEngine::Unloaded, current_model_name: "None".to_owned() }
    }

    /// The name of the model in use.
    pub fn current_model(&self) -> (name: String)
        ensures
            name@ == self.label(),
    {
        self.current_model_name.clone()
    }

    /// The recogniser in use.
    pub fn engine(&self) -> (engine: &TranscriptionEngine<H>)
        ensures
            *engine == self.engine_of(),
    {
        &self.engine
    }

    /// Puts the external recogniser in use, under the name its configuration
    /// carries. It has nothing to bring up, so this always succeeds.
    pub fn load_external(&mut self, config: SherpaConfig) -> (loaded: Loaded)
        ensures
            final(self).engine_of() == TranscriptionEngine::<H>::Sherpa(config),
            final(self).label() == config@.model_name,
            loaded.label@ == config@.model_name,
            loaded.notice@ == external_notice(config.model_type),
    {
        let label = config._model_name.clone();
        let notice = match config.model_type {
            SherpaModelType::SenseVoice => "SenseVoice Loaded".to_owned(),
            _ => "Sherpa Model Loaded".to_owned(),
        };
        self.current_model_name = config._model_name.clone();
        self.engine = TranscriptionEngine::Sherpa(config);
        Loaded { label, notice }
    }

    /// Finishes the load of an in-process model, given what bringing it up
    /// from its file gave: the handle, or the reason it failed. With a handle
    /// the model is in use under `name`; with a failure nothing changes.
    pub fn load_embedded(&mut self, instantiated: Result<H, String>, name: &str) -> (r: Result<
        Loaded,
        EngineError,
    >)
        ensures
            match instantiated {
                Ok(handle) => {
                    &&& final(self).engine_of() == TranscriptionEngine::<H>::Whisper(handle)
                    &&& final(self).label() == name@
                    &&& r matches Ok(loaded)
                    &&& loaded.label@ == name@
                    &&& loaded.notice@ == "Whisper Model Loaded"@
                },
                Err(detail) => {
                    &&& *final(self) == *old(self)
                    &&& r matches Err(EngineError::Instantiation { detail: d })
                    &&& d@ == detail@
                },
            },
    {
        match instantiated {
            Ok(handle) => {
                self.engine = TranscriptionEngine::Whisper(handle);
                self.current_model_name = name.to_owned();
                Ok(Loaded { label: name.to_owned(), notice: "Whisper Model Loaded".to_owned() })
            },
            Err(detail) => Err(EngineError::Instantiation { detail }),
        }
    }

    /// Finishes the load of the default in-process model, as `load_embedded`
    /// does, under the default label, which is also the acknowledgement. A
    /// failure is handed back as it came.
    pub fn load_default(&mut self, instantiated: Result<H, String>) -> (r: Result<Loaded, String>)
        ensures
            match instantiated {
                Ok(handle) => {
                    &&& final(self).engine_of() == TranscriptionEngine::<H>::Whisper(handle)
                    &&& final(self).label() == "Whisper Base (Local)"@
                    &&& r matches Ok(loaded)
                    &&& loaded.label@ == "Whisper Base (Local)"@
                    &&& loaded.notice@ == "Whisper Base (Local)"@
                },
                Err(detail) => {
                    &&& *final(self) == *old(self)
                    &&& r == Err::<Loaded, String>(detail)
                },
            },
    {
        match instantiated {
            Ok(handle) => {
                self.engine = TranscriptionEngine::Whisper(handle);
                self.current_model_name = "Whisper Base (Local)".to_owned();
                Ok(
                    Loaded {
                        label: "Whisper Base (Local)".to_owned(),
                        notice: "Whisper Base (Local)".to_owned(),
                    },
                )
            },
            Err(detail) => Err(detail),
        }
    }

    /// The recogniser that a transcription runs on, or the refusal where
    /// nothing is loaded. The state is read, never changed.
    pub fn backend(&self) -> (r: Result<Backend<'_, H>, EngineError>)
        ensures
            match self.engine_of() {
                TranscriptionEngine::Whisper(handle) => r matches Ok(Backend::Embedded(h)) && *h
                    == handle,
                TranscriptionEngine::Sherpa(config) => r matches Ok(Backend::External(c)) && *c
                    == config,
                TranscriptionEngine::Unloaded => r matches Err(EngineError::NoEngineLoaded),
            },
    {
        match &self.engine {
            TranscriptionEngine::Whisper(handle) => Ok(Backend::Embedded(handle)),
            TranscriptionEngine::Sherpa(config) => Ok(Backend::External(config)),
            TranscriptionEngine::Unloaded => Err(EngineError::NoEngineLoaded),
        }
    }
}

} // verus!
