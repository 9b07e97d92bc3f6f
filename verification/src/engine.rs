//! Backend selection and language priming for the inference engine.

use vstd::prelude::*;

verus! {

/// The available inference backends.
#[derive(Debug, Clone, Copy, PartialEq, Eq, Structural)]
pub enum EngineBackend {
    /// Graph execution with four separate compiled graphs.
    OpenVINO,
    /// Graph execution with a combined decoder-joint graph.
    OnnxRuntime,
    /// A sidecar process reached over a temporary WAV file.
    CoreML,
}

impl EngineBackend {
    /// The model subdirectory of this backend under the base model directory.
    pub fn model_subdir(&self) -> (r: &'static str)
        ensures
            *self == EngineBackend::OpenVINO ==> r@ == "openvino"@,
            *self == EngineBackend::OnnxRuntime ==> r@ == "onnxruntime"@,
            *self == EngineBackend::CoreML ==> r@ == "coreml"@,
    {
        match self {
            EngineBackend::OpenVINO => "openvino",
            EngineBackend::OnnxRuntime => "onnxruntime",
            EngineBackend::CoreML => "coreml",
        }
    }

    /// The backend's display name.
    pub fn display_name(&self) -> (r: &'static str)
        ensures
            *self == EngineBackend::OpenVINO ==> r@ == "OpenVINO"@,
            *self == EngineBackend::OnnxRuntime ==> r@ == "ONNX Runtime"@,
            *self == EngineBackend::CoreML ==> r@ == "CoreML"@,
    {
        match self {
            EngineBackend::OpenVINO => "OpenVINO",
            EngineBackend::OnnxRuntime => "ONNX Runtime",
            EngineBackend::CoreML => "CoreML",
        }
    }

    /// Whether the backend accumulates residual state across calls on one
    /// graph instance, so that fresh inference handles must be created for
    /// every transcription.
    pub fn requires_reset(&self) -> (r: bool)
        ensures
            r == (*self == EngineBackend::OpenVINO),
    {
        match self {
            EngineBackend::OpenVINO => true,
            EngineBackend::OnnxRuntime => false,
            EngineBackend::CoreML => false,
        }
    }
}

impl Default for EngineBackend {
    /// The default backend.
    fn default() -> (r: EngineBackend)
        ensures
            r == EngineBackend::OpenVINO,
    {
        EngineBackend::OpenVINO
    }
}

/// Language selection for transcription.
#[derive(Debug, Clone, Copy, PartialEq, Eq, Structural)]
pub enum TranscriptionLanguage {
    /// Let the model decide.
    Auto,
    /// Force French.
    French,
    /// Force English.
    English,
}

impl TranscriptionLanguage {
    /// The token id injected as a priming step for this language, `None` for
    /// `Auto`.
    pub fn token_id(&self) -> (r: Option<i64>)
        ensures
            r == match *self {
                TranscriptionLanguage::Auto => None::<i64>,
                TranscriptionLanguage::French => Some(71i64),
                TranscriptionLanguage::English => Some(64i64),
            },
    {
        match self {
            TranscriptionLanguage::Auto => None,
            TranscriptionLanguage::French => Some(71),
            TranscriptionLanguage::English => Some(64),
        }
    }

    /// The language's display name.
    pub fn display_name(&self) -> (r: &'static str)
        ensures
            *self == TranscriptionLanguage::Auto ==> r@ == "Auto"@,
            *self == TranscriptionLanguage::French ==> r@ == "Français"@,
            *self == TranscriptionLanguage::English ==> r@ == "English"@,
    {
        match self {
            TranscriptionLanguage::Auto => "Auto",
            TranscriptionLanguage::French => "Français",
            TranscriptionLanguage::English => "English",
        }
    }
}

impl Default for TranscriptionLanguage {
    /// The default language selection.
    fn default() -> (r: TranscriptionLanguage)
        ensures
            r == TranscriptionLanguage::Auto,
    {
        TranscriptionLanguage::Auto
    }
}

} // verus!
