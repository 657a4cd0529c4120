use lotus_news_service::feed::{FeedHub, FeedItem};

fn item(post_id: u128) -> FeedItem {
    FeedItem { post_id, score: 0, created_at: 100 }
}

#[test]
fn publish_with_zero_subscribers_is_a_quiet_no_op() {
    // A publish with no listeners neither errors nor blocks: it returns
    // normally and leaves the hub as it was.
    let mut hub = FeedHub::with_capacity(8);
    assert_eq!(hub.subscriber_count(), 0);
    hub.publish(item(1));
    hub.publish(item(2));
    assert_eq!(hub.subscriber_count(), 0);
}

#[test]
fn one_subscriber_receives_in_publish_order() {
    let mut hub = FeedHub::with_capacity(8);
    let sid = hub.subscribe();
    hub.publish(item(1));
    hub.publish(item(2));
    hub.publish(item(3));
    assert_eq!(hub.poll(sid).unwrap().post_id, 1);
    assert_eq!(hub.poll(sid).unwrap().post_id, 2);
    assert_eq!(hub.poll(sid).unwrap().post_id, 3);
    assert!(hub.poll(sid).is_none());
}

#[test]
fn full_buffer_drops_oldest_only_for_the_slow_subscriber() {
    let mut hub = FeedHub::with_capacity(2);
    let slow = hub.subscribe();
    hub.publish(item(1));
    hub.publish(item(2));
    let fast = hub.subscribe();
    hub.publish(item(3));
    // the slow subscriber's buffer was full: its oldest entry fell out
    assert_eq!(hub.poll(slow).unwrap().post_id, 2);
    assert_eq!(hub.poll(slow).unwrap().post_id, 3);
    assert!(hub.poll(slow).is_none());
    // the fast subscriber saw only what was published after it joined
    assert_eq!(hub.poll(fast).unwrap().post_id, 3);
    assert!(hub.poll(fast).is_none());
}

#[test]
fn every_subscriber_gets_every_publish() {
    let mut hub = FeedHub::with_capacity(8);
    let a = hub.subscribe();
    let b = hub.subscribe();
    hub.publish(item(5));
    assert_eq!(hub.poll(a).unwrap().post_id, 5);
    assert_eq!(hub.poll(b).unwrap().post_id, 5);
}

#[test]
fn unsubscribe_releases_the_slot() {
    let mut hub = FeedHub::with_capacity(8);
    let a = hub.subscribe();
    let b = hub.subscribe();
    hub.publish(item(1));
    hub.unsubscribe(a);
    assert_eq!(hub.subscriber_count(), 1);
    assert!(hub.poll(a).is_none());
    assert_eq!(hub.poll(b).unwrap().post_id, 1);
}
