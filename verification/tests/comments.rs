use lotus_news_service::comments::{build_forest, Comment, CommentNode};
use lotus_news_service::error::AppError;
use lotus_news_service::store::InMemoryStore;

fn row(id: u128, parent_id: Option<u128>, created_at: i64) -> Comment {
    Comment {
        id,
        post_id: 1,
        user_id: 7,
        parent_id,
        body: format!("comment {}", id),
        created_at,
    }
}

fn all_ids(forest: &[CommentNode]) -> Vec<u128> {
    let mut out = Vec::new();
    let mut stack: Vec<&CommentNode> = forest.iter().collect();
    while let Some(n) = stack.pop() {
        out.push(n.id);
        for c in n.children.iter() {
            stack.push(c);
        }
    }
    out.sort();
    out
}

#[test]
fn dangling_parent_becomes_root() {
    // Rows A (no parent), B (child of A), C (parent id that names no row):
    // the forest has roots [A, C], with B the sole child of A. The
    // dangling reference makes C a root; it is not dropped and not an
    // error.
    let a = row(100, None, 10);
    let b = row(200, Some(100), 20);
    let c = row(300, Some(999), 30);
    let forest = build_forest(&vec![a, b, c]);
    assert_eq!(forest.len(), 2);
    assert_eq!(forest[0].id, 100);
    assert_eq!(forest[1].id, 300);
    assert_eq!(forest[0].children.len(), 1);
    assert_eq!(forest[0].children[0].id, 200);
    assert!(forest[0].children[0].children.is_empty());
    assert!(forest[1].children.is_empty());
}

#[test]
fn siblings_come_oldest_first() {
    let root = row(1, None, 10);
    let young = row(2, Some(1), 40);
    let old = row(3, Some(1), 20);
    let middle = row(4, Some(1), 30);
    let forest = build_forest(&vec![root, young, old, middle]);
    assert_eq!(forest.len(), 1);
    let kids: Vec<u128> = forest[0].children.iter().map(|c| c.id).collect();
    assert_eq!(kids, vec![3, 4, 2]);
}

#[test]
fn deep_chain_nests_fully() {
    let rows = vec![
        row(1, None, 10),
        row(2, Some(1), 20),
        row(3, Some(2), 30),
        row(4, Some(3), 40),
    ];
    let forest = build_forest(&rows);
    assert_eq!(forest.len(), 1);
    let n1 = &forest[0];
    assert_eq!(n1.children.len(), 1);
    let n2 = &n1.children[0];
    assert_eq!(n2.children.len(), 1);
    let n3 = &n2.children[0];
    assert_eq!(n3.children.len(), 1);
    assert_eq!(n3.children[0].id, 4);
}

#[test]
fn empty_input_gives_empty_forest() {
    let forest = build_forest(&Vec::new());
    assert!(forest.is_empty());
}

#[test]
fn parent_cycle_terminates_and_keeps_every_row() {
    // Corrupt data: 1 and 2 name each other as parents. The builder must
    // not loop forever, and every row still appears exactly once.
    let rows = vec![row(1, Some(2), 10), row(2, Some(1), 20), row(3, None, 30)];
    let forest = build_forest(&rows);
    assert_eq!(all_ids(&forest), vec![1, 2, 3]);
}

#[test]
fn add_comment_validates_and_censors() {
    let mut s = InMemoryStore::new();
    let c = s
        .add_comment(1, 7, None, "well damn that is neat", 100, 10)
        .unwrap();
    assert_eq!(c.body, "well **** that is neat");
    match s.add_comment(1, 7, None, "", 101, 11) {
        Err(AppError::Validation(_)) => {}
        _ => panic!("expected a validation error for an empty body"),
    }
    let long = "x".repeat(10_001);
    match s.add_comment(1, 7, None, &long, 102, 12) {
        Err(AppError::Validation(_)) => {}
        _ => panic!("expected a validation error for an oversized body"),
    }
    match s.add_comment(1, 7, None, "duplicate id", 100, 13) {
        Err(AppError::Conflict(_)) => {}
        _ => panic!("expected a conflict for a taken id"),
    }
}

#[test]
fn parent_must_belong_to_same_post() {
    let mut s = InMemoryStore::new();
    s.add_comment(1, 7, None, "root of post one", 100, 10).unwrap();
    match s.add_comment(2, 7, Some(100), "cross-post child", 200, 20) {
        Err(AppError::Validation(_)) => {}
        _ => panic!("expected a validation error for a cross-post parent"),
    }
    let ok = s.add_comment(1, 7, Some(100), "same-post child", 201, 21);
    assert!(ok.is_ok());
}

#[test]
fn comment_forest_filters_by_post() {
    let mut s = InMemoryStore::new();
    s.add_comment(1, 7, None, "on post one", 100, 10).unwrap();
    s.add_comment(2, 7, None, "on post two", 200, 20).unwrap();
    s.add_comment(1, 7, Some(100), "reply on post one", 101, 30).unwrap();
    let forest = s.comment_forest(1);
    assert_eq!(forest.len(), 1);
    assert_eq!(forest[0].id, 100);
    assert_eq!(forest[0].children.len(), 1);
    assert_eq!(forest[0].children[0].id, 101);
    let other = s.comment_forest(2);
    assert_eq!(other.len(), 1);
    assert_eq!(other[0].id, 200);
    let empty = s.comment_forest(3);
    assert!(empty.is_empty());
}
