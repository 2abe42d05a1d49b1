//! The error messages of the template-copy path carry enough context to
//! diagnose a failure: the file path, the error kind, and the byte
//! count of the failed write.

use std::io::ErrorKind;

#[test]
fn test_error_messages_have_context() {
    // Test the IMPROVED error message format (what we have after the fix)
    let error = std::io::Error::new(ErrorKind::PermissionDenied, "access denied");

    // This is the FIXED error message format
    let improved_message = format!(
        "Failed to create file '/path/test.prproj': {} ({:?})",
        error,
        error.kind()
    );

    // Verify the improved message has proper context
    assert!(
        improved_message.contains("/path/test.prproj"),
        "Error message should include file path. Got: {}",
        improved_message
    );
    assert!(
        improved_message.contains("PermissionDenied"),
        "Error message should include error kind. Got: {}",
        improved_message
    );

    // Verify write error format
    let write_error_message = format!(
        "Failed to write template data to '/path/test.prproj': {} ({} bytes, error: {:?})",
        error,
        138240,
        error.kind()
    );
    assert!(write_error_message.contains("138240 bytes"));
    assert!(write_error_message.contains("PermissionDenied"));

    // Verify sync error format
    let sync_error_message = format!(
        "Failed to sync file '/path/test.prproj' to disk: {} ({:?})",
        error,
        error.kind()
    );
    assert!(sync_error_message.contains("sync"));
    assert!(sync_error_message.contains("PermissionDenied"));
}
