use rift_bus::bus::{filter_matches, ReplayBuffer, SubscribeFilter};
use rift_bus::envelope::{Category, Envelope};

fn env(category: Category, kind: &str) -> Envelope {
    Envelope::new(category, kind)
}

#[test]
fn replay_ring_buffer_drops_oldest() {
    let mut ring = ReplayBuffer::with_capacity(3);
    ring.publish(env(Category::System, "a"));
    ring.publish(env(Category::System, "b"));
    ring.publish(env(Category::System, "c"));
    ring.publish(env(Category::System, "d"));
    let snapshot = ring.snapshot(&SubscribeFilter::All);
    let kinds: Vec<&str> = snapshot.iter().map(|e| e.kind.as_str()).collect();
    assert_eq!(kinds, ["b", "c", "d"]);
    assert_eq!(ring.len(), 3);
}

#[test]
fn publish_before_subscribe_appears_in_snapshot() {
    let mut ring = ReplayBuffer::with_capacity(512);
    ring.publish(env(Category::Hook, "pre_edit"));
    ring.publish(env(Category::Pty, "pty.output"));
    let snapshot = ring.snapshot(&SubscribeFilter::All);
    assert_eq!(snapshot.len(), 2);
    assert_eq!(snapshot[0].category, Category::Hook);
    assert_eq!(snapshot[1].category, Category::Pty);
}

#[test]
fn category_filter_excludes_others() {
    let f = SubscribeFilter::Category(Category::Hook);
    assert!(!filter_matches(&f, &env(Category::Pty, "pty.output")));
    assert!(filter_matches(&f, &env(Category::Hook, "pre_edit")));
}

#[test]
fn categories_filter_matches_any() {
    let f = SubscribeFilter::Categories(vec![Category::Hook, Category::Aegis]);
    let mut ring = ReplayBuffer::with_capacity(16);
    ring.publish(env(Category::Pty, "pty.output"));
    ring.publish(env(Category::Aegis, "loaded"));
    ring.publish(env(Category::Fs, "write"));
    ring.publish(env(Category::Hook, "pre_edit"));
    let snap = ring.snapshot(&f);
    assert_eq!(snap.len(), 2);
    assert_eq!(snap[0].category, Category::Aegis);
    assert_eq!(snap[1].category, Category::Hook);
}

#[test]
fn empty_categories_filter_admits_nothing() {
    let f = SubscribeFilter::Categories(vec![]);
    assert!(!filter_matches(&f, &env(Category::System, "x")));
}

#[test]
fn empty_ring_snapshot_is_empty() {
    let ring = ReplayBuffer::with_capacity(4);
    assert_eq!(ring.len(), 0);
    assert!(ring.snapshot(&SubscribeFilter::All).is_empty());
}
