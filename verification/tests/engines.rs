use transcrip_it::engines::{validate_descriptor, CancellationToken, EngineCapability, EngineDescriptor, EngineError, RegistryError};

#[test]
fn cancellation_is_shared_and_stops_work_before_execution() {
    let cancellation = CancellationToken::new();
    let cloned = cancellation.clone();
    cloned.cancel();

    let result = cancellation.check();

    assert_eq!(result.unwrap_err().code, "cancelled");
}

#[test]
fn fresh_tokens_let_work_proceed() {
    let token = CancellationToken::new();
    assert!(!token.is_cancelled());
    assert!(token.check().is_ok());
    let error = EngineError::cancelled();
    assert!(error.retryable);
    assert_eq!(error.describe(), "cancelled: processing was cancelled");
}

#[test]
fn descriptors_need_an_id() {
    let descriptor = EngineDescriptor {
        id: "  ".to_owned(),
        name: "Fake".to_owned(),
        version: "v1".to_owned(),
        capabilities: vec![EngineCapability::Offline],
    };
    assert!(matches!(validate_descriptor(descriptor.clone()), Err(RegistryError::EmptyEngineId)));
    let named = EngineDescriptor { id: "fake-transcriber".to_owned(), ..descriptor };
    assert_eq!(validate_descriptor(named).unwrap(), "fake-transcriber");
    assert_eq!(
        RegistryError::not_found("transcription", "missing").message(),
        "transcription engine not found: missing"
    );
}
