use magical_merchant_core::error::CoreError;
use magical_merchant_core::context::{Context, DeviceContext};

#[test]
fn format_test_device_context_mock() {
    let ctx = DeviceContext::mock();
    assert_eq!(ctx.battery, 50);
    assert!(!ctx.is_charging);
}

#[test]
fn context_test_device_context_mock() {
    let ctx = DeviceContext::mock();
    assert_eq!(ctx.battery, 50);
    assert!(!ctx.is_charging);
}

#[test]
fn test_context_mock() {
    let ctx = Context::mock();
    assert_eq!(ctx.battery, 50);
    assert!(!ctx.is_charging);
}

#[test]
fn error_messages_read_as_displayed() {
    assert_eq!(CoreError::NotFound("x".to_string()).describe(), "Not found: x");
    assert_eq!(CoreError::NotAuthenticated.describe(), "Not authenticated");
    assert_eq!(CoreError::Network("down".to_string()).describe(), "Network error: down");
}
