use vstd::prelude::*;
use crate::model::{SherpaConfig, SherpaConfigView, SherpaModelType};
use crate::text::same_text;

verus! {

/// A file that stands directly in a model directory.
pub struct DirEntry {
    /// The file's name within the directory.
    pub name: String,
    /// The file's whole path.
    pub path: String,
}

/// Where a model is to be loaded from, as found on disk.
pub enum ModelLocation {
    /// A single file: a model for the in-process recogniser.
    File { path: String, name: String },
    /// A directory, with its base name and the files in it: a model for the
    /// external recogniser.
    Directory { name: String, files: Vec<DirEntry> },
}

/// A model that has been recognised.
#[derive(Debug)]
pub enum ModelDescriptor {
    /// A model file for the in-process recogniser.
    Embedded { path: String },
    /// A model directory for the external recogniser.
    External { config: SherpaConfig },
}

/// A `ModelDescriptor` with every path as a sequence of characters.
pub enum ModelDescriptorView {
    Embedded { path: Seq<char> },
    External { config: SherpaConfigView },
}

impl View for ModelDescriptor {
    type V = ModelDescriptorView;

    open spec fn view(&self) -> ModelDescriptorView {
        match self {
            ModelDescriptor::Embedded { path } => ModelDescriptorView::Embedded { path: path@ },
            ModelDescriptor::External { config } => ModelDescriptorView::External {
                config: config@,
            },
        }
    }
}

/// Why a directory is no model.
#[derive(Clone, Copy, Debug, PartialEq, Eq, Structural)]
pub enum ResolveError {
    /// The directory has no tokens file.
    MissingTokens,
    /// The directory has no SenseVoice model and lacks an encoder or a
    /// decoder.
    MissingComponent,
}

/// The path of the first of `files` that is named `name`.
pub open spec fn found(files: Seq<DirEntry>, name: Seq<char>) -> Option<Seq<char>>
    decreases files.len(),
{
    if files.len() == 0 {
        None
    } else if files[0].name@ == name {
        Some(files[0].path@)
    } else {
        found(files.skip(1), name)
    }
}

/// The path of a component that may come in two files: the quantised file
/// where the directory has it, else the plain file.
pub open spec fn component(files: Seq<DirEntry>, quantised: Seq<char>, plain: Seq<char>) -> Option<
    Seq<char>,
> {
    match found(files, quantised) {
        Some(path) => Some(path),
        None => found(files, plain),
    }
}

/// The encoder of the model in a directory.
pub open spec fn encoder_of(files: Seq<DirEntry>) -> Option<Seq<char>> {
    component(files, "encoder.int8.onnx"@, "encoder.onnx"@)
}

/// The decoder of the model in a directory.
pub open spec fn decoder_of(files: Seq<DirEntry>) -> Option<Seq<char>> {
    component(files, "decoder.int8.onnx"@, "decoder.onnx"@)
}

/// The joiner of the model in a directory.
pub open spec fn joiner_of(files: Seq<DirEntry>) -> Option<Seq<char>> {
    component(files, "joiner.int8.onnx"@, "joiner.onnx"@)
}

/// What a directory named `name` with the files `files` is.
pub open spec fn resolved_directory(name: Seq<char>, files: Seq<DirEntry>) -> Result<
    SherpaConfigView,
    ResolveError,
> {
    match found(files, "tokens.txt"@) {
        None => Err(ResolveError::MissingTokens),
        Some(tokens) => match found(files, "model.int8.onnx"@) {
            Some(model) => Ok(
                SherpaConfigView {
                    model_type: SherpaModelType::SenseVoice,
                    encoder: None,
                    decoder: None,
                    joiner: None,
                    sense_voice_model: Some(model),
                    tokens: tokens,
                    model_name: name,
                },
            ),
            None => match (encoder_of(files), decoder_of(files)) {
                (Some(encoder), Some(decoder)) => Ok(
                    SherpaConfigView {
                        model_type: if joiner_of(files) is Some {
                            SherpaModelType::Transducer
                        } else {
                            SherpaModelType::Whisper
                        },
                        encoder: Some(encoder),
                        decoder: Some(decoder),
                        joiner: joiner_of(files),
                        sense_voice_model: None,
                        tokens: tokens,
                        model_name: name,
                    },
                ),
                _ => Err(ResolveError::MissingComponent),
            },
        },
    }
}

/// What a location is: a file is a model for the in-process recogniser,
/// whatever it holds; a directory is what `resolved_directory` says.
pub open spec fn resolved(location: ModelLocation) -> Result<ModelDescriptorView, ResolveError> {
    match location {
        ModelLocation::File { path, name } => Ok(ModelDescriptorView::Embedded { path: path@ }),
        ModelLocation::Directory { name, files } => match resolved_directory(name@, files@) {
            Ok(config) => Ok(ModelDescriptorView::External { config }),
            Err(e) => Err(e),
        },
    }
}

/// The name under which a model from `location` is shown.
pub open spec fn label_of(location: ModelLocation) -> Seq<char> {
    match location {
        ModelLocation::File { path, name } => name@,
        ModelLocation::Directory { name, files } => name@,
    }
}

/// The names of the files that resolution looks for in a directory.
pub open spec fn candidates() -> Seq<Seq<char>> {
    seq![
        "tokens.txt"@,
        "model.int8.onnx"@,
        "encoder.int8.onnx"@,
        "encoder.onnx"@,
        "decoder.int8.onnx"@,
        "decoder.onnx"@,
        "joiner.int8.onnx"@,
        "joiner.onnx"@,
    ]
}

/// The names of the files that resolution looks for in a directory, for the
/// caller to probe.
pub fn candidate_names() -> (names: Vec<String>)
    ensures
        names.deep_view() == candidates(),
{
    let mut names: Vec<String> = Vec::new();
    names.push("tokens.txt".to_owned());
    names.push("model.int8.onnx".to_owned());
    names.push("encoder.int8.onnx".to_owned());
    names.push("encoder.onnx".to_owned());
    names.push("decoder.int8.onnx".to_owned());
    names.push("decoder.onnx".to_owned());
    names.push("joiner.int8.onnx".to_owned());
    names.push("joiner.onnx".to_owned());
    assert(names.deep_view() =~= candidates());
    names
}

impl ModelLocation {
    /// The name under which a model from this location is shown.
    pub fn label(&self) -> (name: String)
        ensures
            name@ == label_of(*self),
    {
        match self {
            ModelLocation::File { path, name } => name.clone(),
            ModelLocation::Directory { name, files } => name.clone(),
        }
    }
}

/// Looks a file up by name.
pub fn find(files: &Vec<DirEntry>, name: &str) -> (r: Option<String>)
    ensures
        crate::model::opt_view(r) == found(files@, name@),
{
    let mut i: usize = 0;
    assert(files@.skip(0) =~= files@);
    while i < files.len()
        invariant
            i <= files.len(),
            found(files@, name@) == found(files@.skip(i as int), name@),
        decreases files.len() - i,
    {
        proof {
            assert(files@.skip(i as int)[0] == files@[i as int]);
            assert(files@.skip(i as int).skip(1) =~= files@.skip(i + 1));
        }
        if same_text(files[i].name.as_str(), name) {
            return Some(files[i].path.clone());
        }
        i += 1;
    }
    None
}

/// Looks a component up, its quantised file first.
pub fn find_component(files: &Vec<DirEntry>, quantised: &str, plain: &str) -> (r: Option<String>)
    ensures
        crate::model::opt_view(r) == component(files@, quantised@, plain@),
{
    match find(files, quantised) {
        Some(path) => Some(path),
        None => find(files, plain),
    }
}

/// Recognises the model at `location`.
pub fn resolve(location: &ModelLocation) -> (r: Result<ModelDescriptor, ResolveError>)
    ensures
        match resolved(*location) {
            Ok(descriptor) => r matches Ok(d) && d@ == descriptor,
            Err(e) => r == Err::<ModelDescriptor, ResolveError>(e),
        },
        r matches Ok(ModelDescriptor::External { config }) ==> config@.complete(),
{
    match location {
        ModelLocation::File { path, name } => Ok(ModelDescriptor::Embedded { path: path.clone() }),
        ModelLocation::Directory { name, files } => {
            let tokens = match find(files, "tokens.txt") {
                Some(tokens) => tokens,
                None => {
                    return Err(ResolveError::MissingTokens);
                },
            };
            if let Some(model) = find(files, "model.int8.onnx") {
                return Ok(
                    ModelDescriptor::External {
                        config: SherpaConfig {
                            model_type: SherpaModelType::SenseVoice,
                            encoder: None,
                            decoder: None,
                            joiner: None,
                            sense_voice_model: Some(model),
                            tokens,
                            _model_name: name.clone(),
                        },
                    },
                );
            }
            let encoder = find_component(files, "encoder.int8.onnx", "encoder.onnx");
            let decoder = find_component(files, "decoder.int8.onnx", "decoder.onnx");
            let joiner = find_component(files, "joiner.int8.onnx", "joiner.onnx");
            if encoder.is_none() || decoder.is_none() {
                return Err(ResolveError::MissingComponent);
            }
            let model_type = if joiner.is_some() {
                SherpaModelType::Transducer
            } else {
                SherpaModelType::Whisper
            };
            Ok(
                ModelDescriptor::External {
                    config: SherpaConfig {
                        model_type,
                        encoder,
                        decoder,
                        joiner,
                        sense_voice_model: None,
                        tokens,
                        _model_name: name.clone(),
                    },
                },
            )
        },
    }
}

/// A directory without a tokens file is refused for that reason, whatever
/// else it holds.
pub proof fn law_tokens_required(name: Seq<char>, files: Seq<DirEntry>)
    requires
        found(files, "tokens.txt"@) is None,
    ensures
        resolved_directory(name, files) == Err::<SherpaConfigView, ResolveError>(
            ResolveError::MissingTokens,
        ),
{
}

/// A directory with a tokens file and the file `model.int8.onnx` is a
/// SenseVoice model bound to that file, whatever else it holds.
pub proof fn law_sense_voice(name: Seq<char>, files: Seq<DirEntry>)
    requires
        found(files, "tokens.txt"@) is Some,
        found(files, "model.int8.onnx"@) is Some,
    ensures
        resolved_directory(name, files) matches Ok(config) && config.model_type
            == SherpaModelType::SenseVoice && config.sense_voice_model == found(
            files,
            "model.int8.onnx"@,
        ) && config.tokens == found(files, "tokens.txt"@).unwrap(),
{
}

/// A directory with a tokens file, an encoder and a decoder, and without
/// `model.int8.onnx`, is a transducer where it has a joiner and a
/// Whisper-style model where it has none.
pub proof fn law_kind_by_joiner(name: Seq<char>, files: Seq<DirEntry>)
    requires
        found(files, "tokens.txt"@) is Some,
        found(files, "model.int8.onnx"@) is None,
        encoder_of(files) is Some,
        decoder_of(files) is Some,
    ensures
        resolved_directory(name, files) matches Ok(config) && config.model_type == (if joiner_of(
            files,
        ) is Some {
            SherpaModelType::Transducer
        } else {
            SherpaModelType::Whisper
        }) && config.joiner == joiner_of(files),
{
}

/// A directory with a tokens file and without `model.int8.onnx` that lacks
/// an encoder or a decoder is refused for a missing component.
pub proof fn law_component_required(name: Seq<char>, files: Seq<DirEntry>)
    requires
        found(files, "tokens.txt"@) is Some,
        found(files, "model.int8.onnx"@) is None,
        encoder_of(files) is None || decoder_of(files) is None,
    ensures
        resolved_directory(name, files) == Err::<SherpaConfigView, ResolveError>(
            ResolveError::MissingComponent,
        ),
{
}

/// Where a component's quantised file is in the directory, that file is the
/// component, whether or not the plain file is there too.
pub proof fn law_quantised_first(files: Seq<DirEntry>, quantised: Seq<char>, plain: Seq<char>)
    requires
        found(files, quantised) is Some,
    ensures
        component(files, quantised, plain) == found(files, quantised),
{
}

/// A model of encoder and decoder is bound to the quantised file of each
/// component that has one in the directory.
pub proof fn law_quantised_bound(name: Seq<char>, files: Seq<DirEntry>)
    requires
        resolved_directory(name, files) is Ok,
        found(files, "model.int8.onnx"@) is None,
    ensures
        found(files, "encoder.int8.onnx"@) is Some ==> resolved_directory(name, files).unwrap().encoder
            == found(files, "encoder.int8.onnx"@),
        found(files, "decoder.int8.onnx"@) is Some ==> resolved_directory(name, files).unwrap().decoder
            == found(files, "decoder.int8.onnx"@),
        found(files, "joiner.int8.onnx"@) is Some ==> resolved_directory(name, files).unwrap().joiner
            == found(files, "joiner.int8.onnx"@),
{
}

/// Every configuration that resolution yields names exactly the files its
/// kind needs.
pub proof fn law_resolved_complete(name: Seq<char>, files: Seq<DirEntry>)
    requires
        resolved_directory(name, files) is Ok,
    ensures
        resolved_directory(name, files).unwrap().complete(),
{
}

impl ResolveError {
    /// The message of this error.
    pub open spec fn spec_message(self) -> Seq<char> {
        match self {
            ResolveError::MissingTokens => "Missing tokens.txt"@,
            ResolveError::MissingComponent =>
                "Missing model files: need either 'model.int8.onnx' (SenseVoice) or 'encoder/decoder' (Transducer/Whisper)"@,
        }
    }

    /// The message of this error, for the caller to show.
    pub fn message(&self) -> (m: String)
        ensures
            m@ == self.spec_message(),
    {
        match self {
            ResolveError::MissingTokens => "Missing tokens.txt".to_owned(),
            ResolveError::MissingComponent =>
                "Missing model files: need either 'model.int8.onnx' (SenseVoice) or 'encoder/decoder' (Transducer/Whisper)".to_owned(),
        }
    }
}

} // verus!
