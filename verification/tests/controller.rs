use env_validation::controller::{render, AppError, ErrorKind};

#[test]
fn error_without_cause_shows_its_kind_alone() {
    let error = AppError::new(ErrorKind::HttpServerFail, None);

    assert_eq!(error.to_text(), "HttpServerFail");
}

#[test]
fn error_with_cause_shows_kind_then_cause() {
    let error = AppError::new(
        ErrorKind::InvalidEnvFile("Bad format".to_string()),
        Some("IO error".to_string()),
    );

    let text = error.to_text();

    assert_eq!(text, "InvalidEnvFile(\"Bad format\"): IO error");
    assert!(text.contains("InvalidEnvFile"));
    assert!(text.contains("IO error"));
}

#[test]
fn error_text_quotes_the_text_of_the_kind() {
    let error = AppError::new(ErrorKind::MissingEnvVars("say \"hi\"\n".to_string()), None);

    assert_eq!(error.to_text(), "MissingEnvVars(\"say \\\"hi\\\"\\n\")");
}

#[test]
fn error_text_names_every_kind() {
    let text = |kind: ErrorKind| AppError::new(kind, None).to_text();

    assert_eq!(text(ErrorKind::InvalidEnvFile("a".to_string())), "InvalidEnvFile(\"a\")");
    assert_eq!(text(ErrorKind::MissingEnvVars("b".to_string())), "MissingEnvVars(\"b\")");
    assert_eq!(text(ErrorKind::ExtraEnvVars("c".to_string())), "ExtraEnvVars(\"c\")");
    assert_eq!(text(ErrorKind::HttpServerFail), "HttpServerFail");
    assert_eq!(text(ErrorKind::AddressBindingFail("d".to_string())), "AddressBindingFail(\"d\")");
}

#[test]
fn error_text_matches_the_derived_debug_form_of_the_kind() {
    let kinds = vec![
        ErrorKind::InvalidEnvFile("tab\there".to_string()),
        ErrorKind::MissingEnvVars("back\\slash".to_string()),
        ErrorKind::ExtraEnvVars("quote'single".to_string()),
        ErrorKind::HttpServerFail,
        ErrorKind::AddressBindingFail("127.0.0.1:8000".to_string()),
    ];

    for kind in kinds {
        let expected = format!("{:?}: cause", kind);
        assert_eq!(AppError::new(kind, Some("cause".to_string())).to_text(), expected);
    }
}

#[test]
fn render_puts_the_parts_together() {
    assert_eq!(render("Kind", None, None), "Kind");
    assert_eq!(render("Kind", Some("\"text\""), None), "Kind(\"text\")");
    assert_eq!(render("Kind", None, Some("cause")), "Kind: cause");
    assert_eq!(render("Kind", Some("\"text\""), Some("cause")), "Kind(\"text\"): cause");
    assert_eq!(render("", Some(""), Some("")), "(): ");
}

#[test]
fn new_keeps_kind_and_cause() {
    let error = AppError::new(
        ErrorKind::AddressBindingFail("127.0.0.1:8000".to_string()),
        Some("address in use".to_string()),
    );

    assert!(matches!(error.kind(), ErrorKind::AddressBindingFail(_)));
    assert_eq!(error.kind(), &ErrorKind::AddressBindingFail("127.0.0.1:8000".to_string()));
    assert_eq!(error.cause(), Some("address in use"));
    assert_eq!(AppError::new(ErrorKind::HttpServerFail, None).cause(), None);
}

#[test]
fn new_accepts_each_kind() {
    let invalid_env_file =
        AppError::new(ErrorKind::InvalidEnvFile("Invalid .env format".to_string()), None);
    assert!(matches!(invalid_env_file.kind(), ErrorKind::InvalidEnvFile(_)));

    let missing_env_vars = AppError::new(ErrorKind::MissingEnvVars("API_KEY".to_string()), None);
    assert!(matches!(missing_env_vars.kind(), ErrorKind::MissingEnvVars(_)));

    let extra_env_vars = AppError::new(ErrorKind::ExtraEnvVars("UNNEEDED_VAR".to_string()), None);
    assert!(matches!(extra_env_vars.kind(), ErrorKind::ExtraEnvVars(_)));

    let http_server_fail = AppError::new(ErrorKind::HttpServerFail, None);
    assert!(matches!(http_server_fail.kind(), ErrorKind::HttpServerFail));
}

#[test]
fn kinds_know_their_name_and_text() {
    assert_eq!(ErrorKind::ExtraEnvVars("x".to_string()).label(), "ExtraEnvVars");
    assert_eq!(ErrorKind::ExtraEnvVars("x".to_string()).detail(), Some("x"));
    assert_eq!(ErrorKind::HttpServerFail.label(), "HttpServerFail");
    assert_eq!(ErrorKind::HttpServerFail.detail(), None);
}

#[test]
fn errors_are_equal_when_kind_and_cause_message_are() {
    let make = |text: &str, cause: Option<&str>| {
        AppError::new(ErrorKind::MissingEnvVars(text.to_string()), cause.map(|c| c.to_string()))
    };

    assert_eq!(make("a", None), make("a", None));
    assert_eq!(make("a", Some("c")), make("a", Some("c")));
    assert_ne!(make("a", None), make("b", None));
    assert_ne!(make("a", Some("c")), make("a", Some("d")));
    assert_ne!(make("a", Some("c")), make("a", None));
    assert_ne!(make("a", None), make("a", Some("c")));
    assert_ne!(
        AppError::new(ErrorKind::MissingEnvVars("a".to_string()), None),
        AppError::new(ErrorKind::ExtraEnvVars("a".to_string()), None)
    );
    assert_ne!(
        AppError::new(ErrorKind::HttpServerFail, None),
        AppError::new(ErrorKind::AddressBindingFail("".to_string()), None)
    );
}
