use lotus_news_service::error::AppError;
use lotus_news_service::profanity::{censor, contains_profanity, sanitize};
use lotus_news_service::ranking::age_hours;
use lotus_news_service::validation::validate_http_url;

#[test]
fn absent_url_passes() {
    assert!(validate_http_url(&None).is_ok());
}

#[test]
fn http_and_https_schemes_pass() {
    assert!(validate_http_url(&Some("http://example.net/a".to_string())).is_ok());
    assert!(validate_http_url(&Some("https://example.net/a?b=c".to_string())).is_ok());
}

#[test]
fn other_schemes_and_garbage_fail() {
    match validate_http_url(&Some("ftp://example.net/f".to_string())) {
        Err(AppError::Validation(m)) => assert_eq!(m, "unsupported_scheme"),
        _ => panic!("expected a validation error"),
    }
    match validate_http_url(&Some("no scheme here".to_string())) {
        Err(AppError::Validation(m)) => assert_eq!(m, "invalid_url"),
        _ => panic!("expected a validation error"),
    }
}

#[test]
fn profanity_check_lowercases_first() {
    assert!(contains_profanity("well DAMN that stings"));
    assert!(contains_profanity("shit happens"));
    assert!(!contains_profanity("a perfectly clean sentence"));
    // substring matches count, as in the storage-side filter
    assert!(contains_profanity("hellish landscape"));
}

#[test]
fn sanitize_stars_lowercase_occurrences() {
    assert_eq!(sanitize("well damn that stings".to_string()), "well **** that stings");
    // the check is case-insensitive but the replacement is not: an
    // uppercase spelling is detected yet left in place by this pass
    assert_eq!(sanitize("well DAMN that stings".to_string()), "well DAMN that stings");
    assert_eq!(sanitize("clean".to_string()), "clean");
}

#[test]
fn censor_stars_both_spellings_of_its_list() {
    assert_eq!(censor("damn this HELL"), "**** this ****");
    assert_eq!(censor("no match"), "no match");
}

#[test]
fn age_floors_at_zero_and_truncates_hours() {
    assert_eq!(age_hours(1_000, 1_000), 0);
    assert_eq!(age_hours(500, 1_000), 0);
    assert_eq!(age_hours(7_200, 0), 2);
    assert_eq!(age_hours(7_199, 0), 1);
}

#[test]
fn error_classes_name_themselves() {
    assert_eq!(AppError::validation("x".to_string()).class_name(), "validation error");
    assert_eq!(AppError::conflict("x".to_string()).class_name(), "conflict");
    assert_eq!(AppError::not_found("x".to_string()).class_name(), "not found");
    assert_eq!(AppError::Unauthorized.class_name(), "unauthorized");
    assert_eq!(AppError::Other("x".to_string()).class_name(), "internal error");
}
