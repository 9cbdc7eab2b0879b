use process_dispatcher::cancellation_ext::{
    with_cancellation_outcome, CancellationError, CancellationScope,
};

#[test]
fn test_successful_operation() {
    let scope = CancellationScope::new();

    let operation: Result<String, String> = Ok("success".to_string());
    let result = with_cancellation_outcome(scope.is_cancelled(), operation);

    assert_eq!(result.unwrap().unwrap(), "success");
}

#[test]
fn test_cancellation() {
    let mut scope = CancellationScope::new();

    // Cancel the scope before the operation is awaited.
    scope.cancel();

    let operation: Result<String, String> = Ok("should not reach here".to_string());
    let result = with_cancellation_outcome(scope.is_cancelled(), operation);

    assert_eq!(result.unwrap_err(), CancellationError);
}

#[test]
fn test_original_error_propagation() {
    let scope = CancellationScope::new();

    let operation: Result<String, String> = Err("test error".to_string());
    let result = with_cancellation_outcome(scope.is_cancelled(), operation);

    match result.unwrap().unwrap_err() {
        msg => assert!(msg.contains("test error")),
    }
}

#[test]
fn cancel_is_idempotent() {
    let mut scope = CancellationScope::new();
    assert!(!scope.is_cancelled());
    scope.cancel();
    assert!(scope.is_cancelled());
    scope.cancel();
    assert!(scope.is_cancelled());
    // Once set, every wrapped operation resolves to the cancellation error.
    let a: Result<i32, String> = Ok(1);
    let b: Result<i32, String> = Err("db".to_string());
    assert_eq!(with_cancellation_outcome(scope.is_cancelled(), a).unwrap_err(), CancellationError);
    assert_eq!(with_cancellation_outcome(scope.is_cancelled(), b).unwrap_err(), CancellationError);
}

#[test]
fn cancellation_error_message() {
    assert_eq!(CancellationError.message(), "Operation was cancelled");
}
