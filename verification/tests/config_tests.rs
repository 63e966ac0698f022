use broker::config::{validate, validate_endpoint, validate_secret, Config, ConfigError};

fn config_with(system_name: &str, client_id: &str, secret: &str, hub_endpoint: &str) -> Config {
    Config {
        enabled: true,
        system_name: system_name.to_string(),
        client_id: client_id.to_string(),
        secret: secret.to_string(),
        hub_endpoint: hub_endpoint.to_string(),
        listen_port: 8080,
    }
}

#[test]
fn test_validate_valid_config() {
    let config = config_with("ValidSystem", "valid123", "Valid123!", "https://test.com");
    let result = validate(&config);
    assert!(result.is_ok());
}

#[test]
fn test_validate_empty_system_name() {
    let config = config_with("", "valid123", "Valid123!", "https://test.com");
    let result = validate(&config);
    assert!(
        matches!(result, Err(ConfigError::Validation(ref s)) if s == "System name cannot be empty")
    );
}

#[test]
fn test_validate_empty_client_id() {
    let config = config_with("ValidSystem", "   ", "Valid123!", "https://test.com");
    let result = validate(&config);
    assert!(
        matches!(result, Err(ConfigError::Validation(ref s)) if s == "Client ID cannot be empty")
    );
}

#[test]
fn test_validate_short_secret() {
    let config = config_with("ValidSystem", "valid123", "Short", "https://test.com");
    let result = validate(&config);
    assert!(
        matches!(result, Err(ConfigError::Validation(ref s)) if s == "Secret must be at least 8 characters long")
    );
}

#[test]
fn test_validate_secret_no_uppercase() {
    let config = config_with("ValidSystem", "valid123", "secret123!", "https://test.com");
    let result = validate(&config);
    assert!(
        matches!(result, Err(ConfigError::Validation(ref s)) if s == "Secret must contain at least one uppercase letter")
    );
}

#[test]
fn test_validate_secret_no_digit() {
    let config = config_with("ValidSystem", "valid123", "Secret!!!", "https://test.com");
    let result = validate(&config);
    assert!(
        matches!(result, Err(ConfigError::Validation(ref s)) if s == "Secret must contain at least one digit")
    );
}

#[test]
fn test_validate_secret_no_special() {
    let config = config_with("ValidSystem", "valid123", "Secret123", "https://test.com");
    let result = validate(&config);
    assert!(
        matches!(result, Err(ConfigError::Validation(ref s)) if s == "Secret must contain at least one special character")
    );
}

#[test]
fn test_validate_invalid_endpoint() {
    let config = config_with("ValidSystem", "valid123", "Valid123!", "ftp://test.com");
    let result = validate(&config);
    assert!(
        matches!(result, Err(ConfigError::Validation(ref s)) if s == "Hub endpoint must use http:// or https:// protocol")
    );
}

#[test]
fn test_validate_secret_ok_alone() {
    assert!(validate_secret("MySecret123!").is_ok());
}

#[test]
fn test_validate_endpoint_http() {
    assert!(validate_endpoint("http://localhost").is_ok());
    assert!(validate_endpoint("https://hub.example").is_ok());
    assert!(validate_endpoint("httpx://hub.example").is_err());
    assert!(validate_endpoint("").is_err());
}
