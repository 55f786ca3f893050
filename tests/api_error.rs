use fileshare_core::ApiError;

#[test]
fn api_error_messages() {
    assert_eq!(ApiError::Unauthorized.message(), "Unauthorized access");
    assert_eq!(ApiError::WebDavLocked.message(), "Resource is locked");
    assert_eq!(
        ApiError::ValidationError { field: "name".to_string(), message: "too long".to_string() }.message(),
        "Validation error in field 'name': too long"
    );
    assert_eq!(ApiError::InvalidRequest { message: "bad".to_string() }.message(), "Invalid request: bad");
    assert_eq!(ApiError::Custom { code: "E42".to_string(), message: "odd".to_string() }.message(), "E42: odd");
}
