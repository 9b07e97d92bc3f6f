//! Result records of the transcription pipeline, and the data carried by the
//! settings and device surfaces.
//!
//! Confidence and speed values are held in permille so that the records stay
//! within integer arithmetic; a confidence of 0.95 is 950.

use vstd::prelude::*;

verus! {

/// A timed stretch of transcribed text.
#[derive(Debug, Clone)]
pub struct Segment {
    pub id: String,
    pub start_ms: i64,
    pub end_ms: i64,
    pub text: String,
    /// Confidence in permille: 950 is 0.95.
    pub confidence_permille: u32,
}

/// A completed transcription record.
#[derive(Debug, Clone)]
pub struct Transcription {
    pub id: String,
    pub created_at: String,
    pub updated_at: String,
    /// Either "dictation" or "file".
    pub source_type: String,
    pub source_name: Option<String>,
    pub duration_ms: i64,
    pub language: String,
    pub segments: Vec<Segment>,
    pub raw_text: String,
    pub edited_text: Option<String>,
    pub is_edited: bool,
}

/// User settings carried by the external settings collaborator.
#[derive(Debug, Clone)]
pub struct Settings {
    pub theme: String,
    pub language: String,
    pub input_device_id: Option<String>,
    pub shortcuts: ShortcutSettings,
}

/// Global keyboard shortcut assignments.
#[derive(Debug, Clone)]
pub struct ShortcutSettings {
    pub toggle_recording: String,
    pub pause: String,
    pub copy: String,
}

impl Default for Settings {
    /// The default settings.
    fn default() -> (r: Settings)
        ensures
            r.theme@ == "system"@,
            r.language@ == "fr"@,
            r.input_device_id is None,
            r.shortcuts.toggle_recording@ == "CommandOrControl+Shift+R"@,
            r.shortcuts.pause@ == "CommandOrControl+Shift+P"@,
            r.shortcuts.copy@ == "CommandOrControl+Shift+C"@,
    {
        Settings {
            theme: "system".to_owned(),
            language: "fr".to_owned(),
            input_device_id: None,
            shortcuts: ShortcutSettings {
                toggle_recording: "CommandOrControl+Shift+R".to_owned(),
                pause: "CommandOrControl+Shift+P".to_owned(),
                copy: "CommandOrControl+Shift+C".to_owned(),
            },
        }
    }
}

/// An input device as shown to the user.
#[derive(Debug, Clone)]
pub struct AudioDevice {
    pub id: String,
    pub name: String,
    pub is_default: bool,
}

/// Progress of a long transcription.
#[derive(Debug, Clone)]
pub struct TranscriptionProgress {
    pub current_ms: i64,
    pub total_ms: i64,
    /// Processing speed relative to real time, in permille.
    pub speed_permille: u32,
}

/// A partial result surfaced while a file is being transcribed.
#[derive(Debug, Clone)]
pub struct StreamingSegment {
    pub text: String,
    pub is_final: bool,
    pub confidence_permille: Option<u32>,
}

/// The base model directory configured for the engine.
#[derive(Debug, Clone)]
pub struct ModelPathState(pub String);

/// A fresh random identifier in hyphenated UUID form.
///
/// Relies on uuid::Uuid::new_v4 and uuid's Display impl: the value is
/// random, so nothing is promised of it beyond the hyphenated form's fixed
/// length of 36 characters.
#[verifier::external_body]
pub fn fresh_id() -> (r: String)
    ensures
        r@.len() == 36,
{
    uuid::Uuid::new_v4().to_string()
}

/// The current time as an ISO-8601 UTC string.
///
/// Relies on chrono::Utc::now and chrono::DateTime::to_rfc3339: the value
/// depends on the clock, so nothing is promised of it beyond being
/// non-empty.
#[verifier::external_body]
pub fn now_rfc3339() -> (r: String)
    ensures
        r@.len() > 0,
{
    chrono::Utc::now().to_rfc3339()
}

/// Builds the record for a successful transcription: one segment spanning
/// the whole duration with confidence 0.95, the text as `raw_text`, equal
/// creation and update timestamps, and the engine's default language tag.
pub fn build_transcription(
    text: &str,
    source_type: &str,
    source_name: Option<String>,
    duration_ms: i64,
) -> (r: Transcription)
    ensures
        r.raw_text@ == text@,
        r.segments@.len() == 1,
        r.segments@[0].start_ms == 0,
        r.segments@[0].end_ms == duration_ms,
        r.segments@[0].text@ == text@,
        r.segments@[0].confidence_permille == 950,
        r.duration_ms == duration_ms,
        r.source_type@ == source_type@,
        r.source_name == source_name,
        r.language@ == "fr"@,
        r.edited_text is None,
        !r.is_edited,
        r.created_at@ == r.updated_at@,
        r.created_at@.len() > 0,
        r.id@.len() == 36,
{
    let now = now_rfc3339();
    let segment = Segment {
        id: fresh_id(),
        start_ms: 0,
        end_ms: duration_ms,
        text: text.to_owned(),
        confidence_permille: 950,
    };
    let mut segments: Vec<Segment> = Vec::new();
    segments.push(segment);
    Transcription {
        id: fresh_id(),
        created_at: now.clone(),
        updated_at: now,
        source_type: source_type.to_owned(),
        source_name,
        duration_ms,
        language: "fr".to_owned(),
        segments,
        raw_text: text.to_owned(),
        edited_text: None,
        is_edited: false,
    }
}

/// The placeholder text of a mock transcription.
pub fn mock_text() -> (r: &'static str)
    ensures
        r@ == "[Moteur non charge - transcription simulee]"@,
{
    "[Moteur non charge - transcription simulee]"
}

/// Builds the mock record returned when the engine is not loaded or
/// inference failed: placeholder text, confidence 0.
pub fn mock_transcription(
    source_type: &str,
    source_name: Option<String>,
    duration_ms: i64,
) -> (r: Transcription)
    ensures
        r.raw_text@ == "[Moteur non charge - transcription simulee]"@,
        r.segments@.len() == 1,
        r.segments@[0].start_ms == 0,
        r.segments@[0].end_ms == duration_ms,
        r.segments@[0].text@ == r.raw_text@,
        r.segments@[0].confidence_permille == 0,
        r.duration_ms == duration_ms,
        r.source_type@ == source_type@,
        r.source_name == source_name,
        r.language@ == "fr"@,
        r.edited_text is None,
        !r.is_edited,
        r.created_at@ == r.updated_at@,
        r.id@.len() == 36,
{
    let now = now_rfc3339();
    let text: &'static str = mock_text();
    let segment = Segment {
        id: fresh_id(),
        start_ms: 0,
        end_ms: duration_ms,
        text: text.to_owned(),
        confidence_permille: 0,
    };
    let mut segments: Vec<Segment> = Vec::new();
    segments.push(segment);
    Transcription {
        id: fresh_id(),
        created_at: now.clone(),
        updated_at: now,
        source_type: source_type.to_owned(),
        source_name,
        duration_ms,
        language: "fr".to_owned(),
        segments,
        raw_text: text.to_owned(),
        edited_text: None,
        is_edited: false,
    }
}

} // verus!
