use lotus_news_service::posts::CreatePostInput;
use lotus_news_service::store::InMemoryStore;
use lotus_news_service::error::AppError;

fn store_with_post(id: u128) -> InMemoryStore {
    let mut s = InMemoryStore::new();
    let input = CreatePostInput {
        title: "a fine title".to_string(),
        short_description: "short".to_string(),
        url: Some("https://example.net/x".to_string()),
        body: None,
    };
    s.create_post(7, input, id, 1_000).unwrap();
    s
}

#[test]
fn first_upvote_scores_one() {
    let mut s = store_with_post(1);
    let score = s.cast_vote(42, 1, 1).unwrap();
    assert_eq!(score, 1);
    assert_eq!(s.get_score(1).unwrap(), 1);
}

#[test]
fn double_upvote_retracts() {
    // Casting +1 then +1 again on the same (voter, post): the second cast
    // is a retraction with delta -1, not a further +1.
    let mut s = store_with_post(1);
    let first = s.cast_vote(42, 1, 1).unwrap();
    let second = s.cast_vote(42, 1, 1).unwrap();
    assert_eq!(first, 1);
    assert_eq!(second, first - 1);
    assert_eq!(second, 0);
}

#[test]
fn flip_then_retract_returns_to_baseline() {
    // +1 then -1 flips for a net delta of -2; a further -1 retracts back
    // to the baseline.
    let mut s = store_with_post(1);
    let up = s.cast_vote(42, 1, 1).unwrap();
    assert_eq!(up, 1);
    let flipped = s.cast_vote(42, 1, -1).unwrap();
    assert_eq!(flipped, up - 2);
    assert_eq!(flipped, -1);
    let retracted = s.cast_vote(42, 1, -1).unwrap();
    assert_eq!(retracted, 0);
}

#[test]
fn mixed_votes_sum_exactly() {
    // A batch of first-time votes, flips and retractions on one post: the
    // final score is the exact sum of the live votes.
    let mut s = store_with_post(1);
    s.cast_vote(1, 1, 1).unwrap(); // live +1
    s.cast_vote(2, 1, 1).unwrap(); // +1, flipped below
    s.cast_vote(3, 1, -1).unwrap(); // -1, retracted below
    s.cast_vote(4, 1, -1).unwrap(); // live -1
    s.cast_vote(2, 1, -1).unwrap(); // flip: user 2 now -1
    s.cast_vote(3, 1, -1).unwrap(); // retract: user 3 gone
    // live votes: +1 (user 1), -1 (user 2), -1 (user 4)
    assert_eq!(s.get_score(1).unwrap(), -1);
}

#[test]
fn votes_on_different_posts_are_independent() {
    let mut s = store_with_post(1);
    let input = CreatePostInput {
        title: "another title".to_string(),
        short_description: "short".to_string(),
        url: Some("https://example.net/y".to_string()),
        body: None,
    };
    s.create_post(7, input, 2, 2_000).unwrap();
    s.cast_vote(42, 1, 1).unwrap();
    s.cast_vote(42, 2, -1).unwrap();
    assert_eq!(s.get_score(1).unwrap(), 1);
    assert_eq!(s.get_score(2).unwrap(), -1);
}

#[test]
fn out_of_range_value_is_rejected() {
    let mut s = store_with_post(1);
    match s.cast_vote(42, 1, 2) {
        Err(AppError::Validation(_)) => {}
        other => panic!("expected a validation error, got {:?}", other.is_ok()),
    }
    match s.cast_vote(42, 1, 0) {
        Err(AppError::Validation(_)) => {}
        _ => panic!("expected a validation error"),
    }
    assert_eq!(s.get_score(1).unwrap(), 0);
}

#[test]
fn vote_on_missing_post_is_not_found() {
    let mut s = store_with_post(1);
    match s.cast_vote(42, 999, 1) {
        Err(AppError::NotFound(_)) => {}
        _ => panic!("expected not found"),
    }
}

#[test]
fn score_of_unvoted_post_is_zero() {
    let s = store_with_post(1);
    assert_eq!(s.get_score(1).unwrap(), 0);
    assert_eq!(s.get_score(12345).unwrap(), 0);
}
