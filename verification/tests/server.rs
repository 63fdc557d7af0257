use env_validation::controller::{AppError, ErrorKind};
use env_validation::server::{
    binding_error, construct_server_address, listen_address, lookup, server_error,
};

fn snapshot(entries: &[(&str, &str)]) -> Vec<(String, String)> {
    entries.iter().map(|(key, value)| (key.to_string(), value.to_string())).collect()
}

#[test]
fn address_is_host_colon_port() {
    let environment = snapshot(&[
        ("RRAA_APP_PORT", "8080"),
        ("HOME", "/root"),
        ("RRAA_APP_ADDRESS", "127.0.0.1"),
    ]);

    assert_eq!(
        construct_server_address(&environment, "RRAA_", "APP_ADDRESS", "APP_PORT"),
        Some("127.0.0.1:8080".to_string())
    );
}

#[test]
fn address_needs_both_variables() {
    let only_host = snapshot(&[("RRAA_APP_ADDRESS", "127.0.0.1")]);
    let only_port = snapshot(&[("RRAA_APP_PORT", "8080")]);
    let unprefixed = snapshot(&[("APP_ADDRESS", "127.0.0.1"), ("APP_PORT", "8080")]);

    assert_eq!(construct_server_address(&only_host, "RRAA_", "APP_ADDRESS", "APP_PORT"), None);
    assert_eq!(construct_server_address(&only_port, "RRAA_", "APP_ADDRESS", "APP_PORT"), None);
    assert_eq!(construct_server_address(&unprefixed, "RRAA_", "APP_ADDRESS", "APP_PORT"), None);
    assert_eq!(construct_server_address(&[], "RRAA_", "APP_ADDRESS", "APP_PORT"), None);
}

#[test]
fn address_keeps_empty_values() {
    let environment = snapshot(&[("P_A", ""), ("P_B", "")]);

    assert_eq!(construct_server_address(&environment, "P_", "A", "B"), Some(":".to_string()));
}

#[test]
fn lookup_gives_the_first_value_of_a_key() {
    let environment = snapshot(&[("A", "1"), ("B", "2"), ("A", "3")]);

    assert_eq!(lookup(&environment, "A"), Some(&"1".to_string()));
    assert_eq!(lookup(&environment, "B"), Some(&"2".to_string()));
    assert_eq!(lookup(&environment, "C"), None);
    assert_eq!(lookup(&environment, "a"), None);
}

#[test]
fn binding_error_names_the_address() {
    let error = binding_error("127.0.0.1:8080", "address in use".to_string());

    assert_eq!(
        error,
        AppError::new(
            ErrorKind::AddressBindingFail(
                "Failed to bind server to address: 127.0.0.1:8080".to_string()
            ),
            Some("address in use".to_string()),
        )
    );
    assert_eq!(
        error.to_text(),
        "AddressBindingFail(\"Failed to bind server to address: 127.0.0.1:8080\"): address in use"
    );
}

#[test]
fn server_error_keeps_the_cause() {
    let error = server_error("worker stopped".to_string());

    assert_eq!(error, AppError::new(ErrorKind::HttpServerFail, Some("worker stopped".to_string())));
    assert_eq!(error.to_text(), "HttpServerFail: worker stopped");
}

fn complete_environment() -> Vec<(String, String)> {
    snapshot(&[
        ("RRAA_DB_PROTOCOL", "postgres"),
        ("RRAA_DB_USER", "user"),
        ("RRAA_DB_PASSWORD", "secret"),
        ("RRAA_DB_HOST", "localhost"),
        ("RRAA_DB_PORT", "5432"),
        ("RRAA_DB_NAME", "main"),
        ("RRAA_DB_SLL_MODE", "disable"),
        ("RRAA_DB_SSL_CERTIFICATE_PATH", "/cert"),
        ("RRAA_APP_ADDRESS", "0.0.0.0"),
        ("RRAA_APP_PORT", "8000"),
        ("HOME", "/root"),
    ])
}

#[test]
fn listen_address_of_a_complete_environment() {
    assert_eq!(listen_address(&complete_environment()), Ok("0.0.0.0:8000".to_string()));
}

#[test]
fn listen_address_refuses_an_incomplete_environment() {
    let mut environment = complete_environment();
    environment.remove(9);
    environment.remove(0);

    assert_eq!(
        listen_address(&environment),
        Err(AppError::new(
            ErrorKind::MissingEnvVars(
                "Missing required environment variables: RRAA_APP_PORT, RRAA_DB_PROTOCOL"
                    .to_string()
            ),
            None,
        ))
    );
}

#[test]
fn listen_address_refuses_an_environment_with_extra_variables() {
    let mut environment = complete_environment();
    environment.push(("RRAA_DB_SSL_MODE".to_string(), "disable".to_string()));

    assert_eq!(
        listen_address(&environment),
        Err(AppError::new(
            ErrorKind::ExtraEnvVars(
                "Extra variables not in REQUIRED_ENV_VARS detected: RRAA_DB_SSL_MODE.".to_string()
            ),
            None,
        ))
    );
}
