//! The translation flow's decisions: validating the captured buffer,
//! routing a target language to the transcription engine's native
//! English translation or to an external model, building the model
//! prompts, and falling back to the original text when the model
//! yields nothing. The capture, transcription and HTTP calls run in
//! the adapters, which hand their outcomes in.

use vstd::prelude::*;
use vstd::string::StringExecFns;
use crate::history::BackendError;
use crate::text::{english_tag, is_english_tag};

verus! {

/// Which engine translates for a requested target language.
#[derive(Clone, Copy, PartialEq, Eq, Structural, Debug)]
pub enum TranslationRoute {
    /// English targets use the transcription engine's native
    /// translate-to-English mode.
    WhisperTranslate,
    /// Other targets go to the configured external model.
    ExternalModel,
}

/// The translation capture flow. It holds no state of its own: the
/// capture source and engines are external, and each decision works
/// on the outcomes the adapters hand in.
pub struct TranslationManager {}

impl TranslationManager {
    pub fn new() -> TranslationManager {
        TranslationManager {  }
    }

    /// Begins a capture for translation: the adapters warm the model
    /// up and try to start recording; a refused recording start is
    /// surfaced as `CaptureUnavailable`.
    pub fn start_capture(&self, recording_started: bool) -> (r: Result<(), BackendError>)
        ensures
            (r is Ok) <==> recording_started,
            !recording_started ==> r == Err::<(), BackendError>(BackendError::CaptureUnavailable),
    {
        if recording_started {
            Ok(())
        } else {
            Err(BackendError::CaptureUnavailable)
        }
    }

    /// Validates what the capture source handed back on stop: there
    /// must be a buffer and it must hold samples.
    pub fn check_captured_samples(&self, samples_len: Option<usize>) -> (r: Result<
        usize,
        BackendError,
    >)
        ensures
            (r is Ok) <==> (samples_len matches Some(k) && k > 0),
            r matches Ok(k) ==> samples_len == Some(k),
            r matches Err(e) ==> e == BackendError::CaptureUnavailable,
    {
        match samples_len {
            Some(k) if k > 0 => Ok(k),
            _ => Err(BackendError::CaptureUnavailable),
        }
    }

    /// Routes the target language: English (by name or tag, in any
    /// letter case) uses the engine's native translation, everything
    /// else the external model.
    pub fn translation_route(&self, target_lang: &str) -> (r: TranslationRoute)
        ensures
            (r is WhisperTranslate) <==> english_tag(target_lang@),
    {
        if is_english_tag(target_lang) {
            TranslationRoute::WhisperTranslate
        } else {
            TranslationRoute::ExternalModel
        }
    }

    /// The prompt handed to the external model by the capture flow.
    pub fn build_translation_prompt(&self, target_lang: &str, text: &str) -> (r: String)
        ensures
            r@ == "Translate to "@ + target_lang@ + ". Return ONLY translation: "@ + text@,
    {
        let mut r = "Translate to ".to_owned();
        r.append(target_lang);
        r.append(". Return ONLY translation: ");
        r.append(text);
        assert(r@ =~= "Translate to "@ + target_lang@ + ". Return ONLY translation: "@ + text@);
        r
    }

    /// The prompt handed to the external model by the plain
    /// translate-text request, which also names the source language.
    pub fn build_translate_text_prompt(&self, source_lang: &str, target_lang: &str, text: &str) -> (r:
        String)
        ensures
            r@ == "Translate the following from "@ + source_lang@ + " to "@ + target_lang@
                + ". Return ONLY the translation.\n\nText: "@ + text@,
    {
        let mut r = "Translate the following from ".to_owned();
        r.append(source_lang);
        r.append(" to ");
        r.append(target_lang);
        r.append(". Return ONLY the translation.\n\nText: ");
        r.append(text);
        assert(r@ =~= "Translate the following from "@ + source_lang@ + " to "@ + target_lang@
            + ". Return ONLY the translation.\n\nText: "@ + text@);
        r
    }

    /// Picks the translated text: the model's answer when it gave
    /// one, else the original transcription (model failures fall
    /// back, they are never surfaced from the capture flow).
    pub fn select_translation(
        &self,
        llm_outcome: Result<Option<String>, String>,
        original_text: &str,
    ) -> (r: String)
        ensures
            llm_outcome matches Ok(Some(t)) ==> r@ == t@,
            llm_outcome matches Ok(None) ==> r@ == original_text@,
            llm_outcome matches Err(_) ==> r@ == original_text@,
    {
        match llm_outcome {
            Ok(Some(t)) => t,
            _ => original_text.to_owned(),
        }
    }
}

} // verus!
