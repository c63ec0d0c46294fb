use llm_gateway::client::LLMError;
use llm_gateway::errors::{i64_to_string, u64_to_string, GatewayError};

#[test]
fn unsigned_values_render_in_decimal() {
    assert_eq!(u64_to_string(0), "0");
    assert_eq!(u64_to_string(7), "7");
    assert_eq!(u64_to_string(10), "10");
    assert_eq!(u64_to_string(12345), "12345");
    assert_eq!(u64_to_string(u64::MAX), "18446744073709551615");
}

#[test]
fn signed_values_render_with_a_minus_sign() {
    assert_eq!(i64_to_string(0), "0");
    assert_eq!(i64_to_string(-1), "-1");
    assert_eq!(i64_to_string(42), "42");
    assert_eq!(i64_to_string(-30000), "-30000");
    assert_eq!(i64_to_string(i64::MIN), "-9223372036854775808");
    assert_eq!(i64_to_string(i64::MAX), "9223372036854775807");
}

#[test]
fn no_credential_available_message() {
    assert_eq!(
        GatewayError::NoCredentialAvailable.message(),
        "No available tokens"
    );
}

#[test]
fn retries_exhausted_message_names_the_cap_and_the_credential() {
    let e = GatewayError::RetriesExhausted {
        attempts: 10,
        token_id: 5,
        last_error: LLMError("connection reset".to_string()),
    };
    assert_eq!(
        e.message(),
        "Max retry attempts (10) reached. Last error on token 5: connection reset"
    );
}

#[test]
fn retries_exhausted_message_renders_negative_ids() {
    let e = GatewayError::RetriesExhausted {
        attempts: 10,
        token_id: -3,
        last_error: LLMError("x".to_string()),
    };
    assert_eq!(
        e.message(),
        "Max retry attempts (10) reached. Last error on token -3: x"
    );
}

#[test]
fn store_access_failure_message() {
    let e = GatewayError::StoreAccessFailure { message: "disk full".to_string() };
    assert_eq!(e.message(), "Database error: disk full");
}
