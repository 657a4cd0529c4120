use lotus_news_service::error::AppError;
use lotus_news_service::posts::CreatePostInput;
use lotus_news_service::store::InMemoryStore;

fn input(title: &str) -> CreatePostInput {
    CreatePostInput {
        title: title.to_string(),
        short_description: "short".to_string(),
        url: Some("https://example.net/p".to_string()),
        body: None,
    }
}

fn seeded() -> InMemoryStore {
    // Created at t1 < t2 < t3, so post 3 is the newest.
    let mut s = InMemoryStore::new();
    s.create_post(7, input("post one"), 1, 100).unwrap();
    s.create_post(7, input("post two"), 2, 200).unwrap();
    s.create_post(7, input("post three"), 3, 300).unwrap();
    s
}

#[test]
fn new_listing_pages_newest_first() {
    // Page one of two rows is [t3, t2]; the returned cursor then yields
    // [t1] with no further cursor.
    let s = seeded();
    let (page1, cur1) = s.list_new(None, 2).unwrap();
    assert_eq!(page1.len(), 2);
    assert_eq!(page1[0].id, 3);
    assert_eq!(page1[1].id, 2);
    let cur1 = cur1.expect("a full page carries a cursor");
    let (page2, cur2) = s.list_new(Some(cur1), 2).unwrap();
    assert_eq!(page2.len(), 1);
    assert_eq!(page2[0].id, 1);
    assert!(cur2.is_none());
}

#[test]
fn new_listing_breaks_created_at_ties_by_id() {
    let mut s = InMemoryStore::new();
    s.create_post(7, input("same instant a"), 10, 500).unwrap();
    s.create_post(7, input("same instant b"), 11, 500).unwrap();
    let (page, _) = s.list_new(None, 10).unwrap();
    assert_eq!(page.len(), 2);
    assert_eq!(page[0].id, 11);
    assert_eq!(page[1].id, 10);
}

#[test]
fn top_listing_orders_by_score_then_recency_then_id() {
    let mut s = seeded();
    s.cast_vote(42, 1, 1).unwrap(); // post 1: score 1
    // posts 2 and 3 tie at score 0: newer (3) first
    let (page, _) = s.list_top(None, 10).unwrap();
    let ids: Vec<u128> = page.iter().map(|p| p.id).collect();
    assert_eq!(ids, vec![1, 3, 2]);
}

#[test]
fn top_pages_chained_by_cursor_skip_and_repeat_nothing() {
    // Two posts of equal score order by created_at DESC then id DESC; a
    // concurrent insert between the pages shifts nothing already paged.
    let mut s = seeded();
    let (page1, cur1) = s.list_top(None, 2).unwrap();
    let ids1: Vec<u128> = page1.iter().map(|p| p.id).collect();
    assert_eq!(ids1, vec![3, 2]);
    // a new post arrives while the client holds the cursor
    s.create_post(7, input("late arrival"), 4, 400).unwrap();
    let (page2, cur2) = s.list_top(Some(cur1.unwrap()), 2).unwrap();
    let ids2: Vec<u128> = page2.iter().map(|p| p.id).collect();
    // nothing from page one repeats, and the remaining old row appears
    for id in &ids2 {
        assert!(!ids1.contains(id));
    }
    assert!(ids2.contains(&1));
    assert!(cur2.is_none() || page2.len() == 2);
}

#[test]
fn new_pages_stable_under_head_insert() {
    let mut s = seeded();
    let (page1, cur1) = s.list_new(None, 2).unwrap();
    assert_eq!(page1[0].id, 3);
    // a newer post arrives at the head of the ordering
    s.create_post(7, input("brand new"), 9, 900).unwrap();
    let (page2, cur2) = s.list_new(Some(cur1.unwrap()), 2).unwrap();
    assert_eq!(page2.len(), 1);
    assert_eq!(page2[0].id, 1);
    assert!(cur2.is_none());
}

#[test]
fn non_positive_limit_is_rejected() {
    let s = seeded();
    match s.list_new(None, 0) {
        Err(AppError::Validation(_)) => {}
        _ => panic!("expected a validation error"),
    }
    match s.list_top(None, -3) {
        Err(AppError::Validation(_)) => {}
        _ => panic!("expected a validation error"),
    }
}

#[test]
fn search_by_title_is_case_insensitive_and_paged() {
    let mut s = InMemoryStore::new();
    s.create_post(7, input("Learning Rust today"), 1, 100).unwrap();
    s.create_post(7, input("gardening notes"), 2, 200).unwrap();
    s.create_post(7, input("RUST and more rust"), 3, 300).unwrap();
    let (page, _) = s.search_by_title("rUsT", None, 10).unwrap();
    let ids: Vec<u128> = page.iter().map(|p| p.id).collect();
    assert_eq!(ids, vec![3, 1]);
    let (none_page, next) = s.search_by_title("astronomy", None, 10).unwrap();
    assert!(none_page.is_empty());
    assert!(next.is_none());
}
