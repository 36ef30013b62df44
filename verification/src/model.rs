use vstd::prelude::*;

verus! {

/// The three on-disk layouts of a model for the external recogniser.
#[derive(Clone, Copy, Debug, PartialEq, Eq, Structural)]
pub enum SherpaModelType {
    /// Encoder, decoder and joiner.
    Transducer,
    /// Encoder and decoder, no joiner.
    Whisper,
    /// One combined model file.
    SenseVoice,
}

/// What the external recogniser is started with: the kind of model and the
/// paths of its files.
#[derive(Debug)]
pub struct SherpaConfig {
    pub model_type: SherpaModelType,
    pub encoder: Option<String>,
    pub decoder: Option<String>,
    pub joiner: Option<String>,
    pub sense_voice_model: Option<String>,
    pub tokens: String,
    pub _model_name: String,
}

/// A `SherpaConfig` with every path as a sequence of characters.
pub struct SherpaConfigView {
    pub model_type: SherpaModelType,
    pub encoder: Option<Seq<char>>,
    pub decoder: Option<Seq<char>>,
    pub joiner: Option<Seq<char>>,
    pub sense_voice_model: Option<Seq<char>>,
    pub tokens: Seq<char>,
    pub model_name: Seq<char>,
}

/// The characters of an optional string.
pub open spec fn opt_view(s: Option<String>) -> Option<Seq<char>> {
    match s {
        Some(t) => Some(t@),
        None => None,
    }
}

impl View for SherpaConfig {
    type V = SherpaConfigView;

    open spec fn view(&self) -> SherpaConfigView {
        SherpaConfigView {
            model_type: self.model_type,
            encoder: opt_view(self.encoder),
            decoder: opt_view(self.decoder),
            joiner: opt_view(self.joiner),
            sense_voice_model: opt_view(self.sense_voice_model),
            tokens: self.tokens@,
            model_name: self._model_name@,
        }
    }
}

impl SherpaConfigView {
    /// Whether the configuration names exactly the files its kind needs: a
    /// transducer its encoder, decoder and joiner; a Whisper-style model its
    /// encoder and decoder and no joiner; a SenseVoice model its one file.
    pub open spec fn complete(self) -> bool {
        match self.model_type {
            SherpaModelType::Transducer => {
                &&& self.encoder is Some
                &&& self.decoder is Some
                &&& self.joiner is Some
                &&& self.sense_voice_model is None
            },
            SherpaModelType::Whisper => {
                &&& self.encoder is Some
                &&& self.decoder is Some
                &&& self.joiner is None
                &&& self.sense_voice_model is None
            },
            SherpaModelType::SenseVoice => {
                &&& self.sense_voice_model is Some
                &&& self.encoder is None
                &&& self.decoder is None
                &&& self.joiner is None
            },
        }
    }
}

/// A copy of an optional string.
pub fn clone_opt(s: &Option<String>) -> (r: Option<String>)
    ensures
        opt_view(r) == opt_view(*s),
        r == *s,
{
    match s {
        Some(t) => Some(t.clone()),
        None => None,
    }
}

impl Clone for SherpaConfig {
    fn clone(&self) -> (r: Self)
        ensures
            r == *self,
    {
        SherpaConfig {
            model_type: self.model_type,
            encoder: clone_opt(&self.encoder),
            decoder: clone_opt(&self.decoder),
            joiner: clone_opt(&self.joiner),
            sense_voice_model: clone_opt(&self.sense_voice_model),
            tokens: self.tokens.clone(),
            _model_name: self._model_name.clone(),
        }
    }
}

impl SherpaConfig {
    /// Whether the configuration names exactly the files its kind needs.
    pub fn is_complete(&self) -> (b: bool)
        ensures
            b == self@.complete(),
    {
        match self.model_type {
            SherpaModelType::Transducer => self.encoder.is_some() && self.decoder.is_some()
                && self.joiner.is_some() && self.sense_voice_model.is_none(),
            SherpaModelType::Whisper => self.encoder.is_some() && self.decoder.is_some()
                && self.joiner.is_none() && self.sense_voice_model.is_none(),
            SherpaModelType::SenseVoice => self.sense_voice_model.is_some()
                && self.encoder.is_none() && self.decoder.is_none() && self.joiner.is_none(),
        }
    }
}

} // verus!
