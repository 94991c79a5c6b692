//! What every processing engine publishes and shares: its descriptor, its typed errors, the
//! cancellation it obeys, and the plain requests and outputs it exchanges.
use vstd::prelude::*;
use crate::text::{push_str, spec_trim, trim};

verus! {

/// A capability that an engine declares.
#[derive(Clone, Copy, Debug, PartialEq, Eq, Structural)]
pub enum EngineCapability {
    Offline,
    Cpu,
    Gpu,
    English,
    Multilingual,
    TimestampedSegments,
    SpeakerLabels,
    StructuredOutput,
}

/// The stable identity of an engine: its id, name, version and capabilities.
#[derive(Clone, Debug)]
pub struct EngineDescriptor {
    pub id: String,
    pub name: String,
    pub version: String,
    pub capabilities: Vec<EngineCapability>,
}

/// An engine failure: a stable code, a message safe to show, and whether retrying may help.
#[derive(Clone, Debug)]
pub struct EngineError {
    pub code: String,
    pub message: String,
    pub retryable: bool,
}

/// The code of the error that cancelled work reports.
pub open spec fn cancelled_code() -> Seq<char> {
    "cancelled"@
}

/// The message of the error that cancelled work reports.
pub open spec fn cancelled_message() -> Seq<char> {
    "processing was cancelled"@
}

impl EngineError {
    /// An engine error with the given code, message and retry advice.
    pub fn new(code: &str, message: &str, retryable: bool) -> (r: EngineError)
        ensures
            r.code@ == code@,
            r.message@ == message@,
            r.retryable == retryable,
    {
        EngineError { code: code.to_string(), message: message.to_string(), retryable }
    }

    /// The error of work stopped by cancellation; it may be retried.
    pub fn cancelled() -> (r: EngineError)
        ensures
            r.code@ == cancelled_code(),
            r.message@ == cancelled_message(),
            r.retryable,
    {
        EngineError::new("cancelled", "processing was cancelled", true)
    }

    /// The error as the user sees it: code, colon, message.
    pub fn describe(&self) -> (r: String)
        ensures
            r@ == self.code@ + ": "@ + self.message@,
    {
        let mut text = self.code.clone();
        push_str(&mut text, ": ");
        push_str(&mut text, self.message.as_str());
        text
    }
}

/// A cancellation flag shared by every clone of the token.
#[derive(Clone)]
pub struct CancellationToken {
    cancelled: std::sync::Arc<std::sync::atomic::AtomicBool>,
}

impl CancellationToken {
    /// A token that has not been cancelled.
    pub fn new() -> (r: CancellationToken) {
        CancellationToken {
            cancelled: std::sync::Arc::new(std::sync::atomic::AtomicBool::new(false)),
        }
    }

    /// Cancels the work of every holder of this token or its clones.
    pub fn cancel(&self) {
        self.cancelled.store(true, std::sync::atomic::Ordering::Release);
    }

    /// Whether the token was cancelled. The flag is shared with other threads, so nothing is
    /// known of the answer beforehand.
    pub fn is_cancelled(&self) -> (r: bool) {
        self.cancelled.load(std::sync::atomic::Ordering::Acquire)
    }

    /// Stops work that was cancelled with the cancellation error; lets other work go on.
    pub fn check(&self) -> (r: Result<(), EngineError>)
        ensures
            r matches Err(e) ==> e.code@ == cancelled_code() && e.message@ == cancelled_message() && e.retryable,
    {
        if self.is_cancelled() {
            Err(EngineError::cancelled())
        } else {
            Ok(())
        }
    }
}

impl Default for CancellationToken {
    fn default() -> (r: CancellationToken) {
        CancellationToken::new()
    }
}

/// A progress reporter that ignores what it is told.
pub struct NoopProgress;

/// Which speaker said a segment of a transcription.
#[derive(Clone, Debug, PartialEq, Eq)]
pub struct SpeakerAssignment {
    pub segment_index: usize,
    pub speaker_label: String,
}

/// The speakers a speaker engine assigned.
#[derive(Clone, Debug, PartialEq, Eq)]
pub struct SpeakerOutput {
    pub assignments: Vec<SpeakerAssignment>,
}

/// A transcript segment as a summary engine reads it.
#[derive(Clone, Debug, PartialEq, Eq)]
pub struct SummarySegmentInput {
    pub segment_id: String,
    pub start_ms: i64,
    pub end_ms: i64,
    pub speaker_label: Option<String>,
    pub text: String,
}

/// What a summary engine is asked to summarize, with which template and in which language.
#[derive(Clone, Debug)]
pub struct SummaryRequest {
    pub meeting_id: String,
    pub template_id: String,
    pub output_language: String,
    pub segments: Vec<SummarySegmentInput>,
}

/// What a transcription engine is asked to transcribe.
#[derive(Clone, Debug)]
pub struct TranscriptionRequest {
    pub audio_path: String,
    pub language_hint: Option<String>,
    pub initial_prompt: Option<String>,
}

/// Why an engine could not be registered or found.
#[derive(Debug)]
pub enum RegistryError {
    EmptyEngineId,
    EngineNotFound { kind: &'static str, id: String },
    LockPoisoned,
}

impl RegistryError {
    /// A description of the error for the user.
    pub fn message(&self) -> (r: String)
        ensures
            self matches RegistryError::EmptyEngineId ==> r@ == "engine id must not be empty"@,
            self matches RegistryError::EngineNotFound { kind, id } ==> r@ == kind@ + " engine not found: "@ + id@,
            self matches RegistryError::LockPoisoned ==> r@ == "engine registry lock is poisoned"@,
    {
        match self {
            RegistryError::EmptyEngineId => String::from_str("engine id must not be empty"),
            RegistryError::EngineNotFound { kind, id } => {
                let mut s = String::from_str(*kind);
                push_str(&mut s, " engine not found: ");
                push_str(&mut s, id.as_str());
                s
            },
            RegistryError::LockPoisoned => String::from_str("engine registry lock is poisoned"),
        }
    }

    /// The error of an engine of `kind` that is not registered under `id`.
    pub fn not_found(kind: &'static str, id: &str) -> (r: RegistryError)
        ensures
            r matches RegistryError::EngineNotFound { kind: k, id: i } && k@ == kind@ && i@ == id@,
    {
        RegistryError::EngineNotFound { kind, id: id.to_string() }
    }
}

/// Accepts a descriptor whose id is not blank, and gives the id under which it registers.
pub fn validate_descriptor(descriptor: EngineDescriptor) -> (r: Result<String, RegistryError>)
    ensures
        spec_trim(descriptor.id@).len() == 0 ==> r matches Err(RegistryError::EmptyEngineId),
        spec_trim(descriptor.id@).len() > 0 ==> (r matches Ok(id) && id@ == descriptor.id@),
{
    let trimmed = trim(descriptor.id.as_str());
    if trimmed.as_str().is_empty() {
        Err(RegistryError::EmptyEngineId)
    } else {
        Ok(descriptor.id)
    }
}

} // verus!
