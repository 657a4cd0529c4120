use lotus_news_service::error::AppError;
use lotus_news_service::posts::{check_create_post, check_update_post, CreatePostInput};
use lotus_news_service::store::InMemoryStore;

fn base_input() -> CreatePostInput {
    CreatePostInput {
        title: "an acceptable title".to_string(),
        short_description: "short".to_string(),
        url: Some("https://example.net/a".to_string()),
        body: Some("some body text".to_string()),
    }
}

#[test]
fn valid_submission_is_stored_with_score_zero() {
    let mut s = InMemoryStore::new();
    let p = s.create_post(7, base_input(), 1, 100).unwrap();
    assert_eq!(p.id, 1);
    assert_eq!(p.user_id, 7);
    assert_eq!(p.score, 0);
    assert_eq!(p.created_at, 100);
    assert_eq!(p.title, "an acceptable title");
}

#[test]
fn title_length_bounds_are_enforced() {
    let mut short = base_input();
    short.title = "ab".to_string();
    assert!(matches!(check_create_post(&short), Err(AppError::Validation(_))));
    let mut long = base_input();
    long.title = "x".repeat(301);
    assert!(matches!(check_create_post(&long), Err(AppError::Validation(_))));
    let mut exact = base_input();
    exact.title = "x".repeat(300);
    assert!(check_create_post(&exact).is_ok());
}

#[test]
fn url_or_body_is_required() {
    let mut neither = base_input();
    neither.url = None;
    neither.body = None;
    assert!(matches!(check_create_post(&neither), Err(AppError::Validation(_))));
}

#[test]
fn blank_body_without_url_is_rejected() {
    let mut blank = base_input();
    blank.url = None;
    blank.body = Some("   \t ".to_string());
    assert!(matches!(check_create_post(&blank), Err(AppError::Validation(_))));
    let mut fine = base_input();
    fine.url = None;
    fine.body = Some("  real words  ".to_string());
    assert!(check_create_post(&fine).is_ok());
}

#[test]
fn non_http_scheme_is_rejected() {
    let mut ftp = base_input();
    ftp.url = Some("ftp://example.net/f".to_string());
    assert!(matches!(check_create_post(&ftp), Err(AppError::Validation(_))));
    let mut garbage = base_input();
    garbage.url = Some("not a url at all".to_string());
    assert!(matches!(check_create_post(&garbage), Err(AppError::Validation(_))));
    let mut http = base_input();
    http.url = Some("http://example.net/f".to_string());
    assert!(check_create_post(&http).is_ok());
}

#[test]
fn profane_title_or_body_is_rejected() {
    // The check lowercases first, so capitalised spellings are caught too.
    let mut t = base_input();
    t.title = "what the DAMN title".to_string();
    assert!(matches!(check_create_post(&t), Err(AppError::Validation(_))));
    let mut b = base_input();
    b.body = Some("this is hell on wheels".to_string());
    assert!(matches!(check_create_post(&b), Err(AppError::Validation(_))));
}

#[test]
fn duplicate_post_id_conflicts() {
    let mut s = InMemoryStore::new();
    s.create_post(7, base_input(), 1, 100).unwrap();
    match s.create_post(7, base_input(), 1, 200) {
        Err(AppError::Conflict(_)) => {}
        _ => panic!("expected a conflict"),
    }
}

#[test]
fn update_checks_title_bytes_and_url_or_body() {
    assert!(matches!(
        check_update_post("ab", &Some("https://e.net".to_string()), &None),
        Err(AppError::Validation(_))
    ));
    assert!(matches!(check_update_post("a fine title", &None, &None), Err(AppError::Validation(_))));
    assert!(check_update_post("a fine title", &None, &Some("body".to_string())).is_ok());
}

#[test]
fn update_replaces_fields_but_not_identity() {
    let mut s = InMemoryStore::new();
    s.create_post(7, base_input(), 1, 100).unwrap();
    s.cast_vote(42, 1, 1).unwrap();
    let p = s
        .update_post(1, "a corrected title", "new short", &None, &Some("new body".to_string()))
        .unwrap();
    assert_eq!(p.id, 1);
    assert_eq!(p.title, "a corrected title");
    assert_eq!(p.body.as_deref(), Some("new body"));
    assert_eq!(p.score, 1);
    assert_eq!(p.created_at, 100);
    // edits deliberately skip the creation-only checks: a profane title
    // passes the update path unchanged
    assert!(s
        .update_post(1, "a damn edited title", "s", &None, &Some("b".to_string()))
        .is_ok());
}

#[test]
fn update_of_missing_post_is_not_found() {
    let mut s = InMemoryStore::new();
    match s.update_post(9, "a fine title", "s", &None, &Some("b".to_string())) {
        Err(AppError::NotFound(_)) => {}
        _ => panic!("expected not found"),
    }
}
