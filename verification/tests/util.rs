use mirrord_steal::index_allocator::IndexAllocator;
use mirrord_steal::ip_tables::{chain_name, decimal_digits, redirect_rule, SafeIpTables};
use mirrord_steal::protover::{
    determine_version, local_announcement, Announcement, ProtoVerError,
    VersionSupportAnnouncement,
};
use mirrord_steal::subscriptions::Subscriptions;

#[test]
fn ids_rise_from_zero() {
    let mut allocator = IndexAllocator::new();
    assert_eq!(allocator.next_index(), Some(0));
    assert_eq!(allocator.next_index(), Some(1));
    assert_eq!(allocator.next_index(), Some(2));
    assert!(allocator.is_allocated(1));
    assert!(!allocator.is_allocated(3));
    assert!(!allocator.is_exhausted());
}

#[test]
fn freed_ids_are_used_again_latest_first() {
    let mut allocator = IndexAllocator::new();
    for _ in 0..4 {
        allocator.next_index();
    }
    assert!(allocator.free_index(1));
    assert!(allocator.free_index(3));
    assert!(!allocator.is_allocated(1));
    assert_eq!(allocator.next_index(), Some(3));
    assert_eq!(allocator.next_index(), Some(1));
    assert_eq!(allocator.next_index(), Some(4));
}

#[test]
fn an_id_is_freed_once() {
    let mut allocator = IndexAllocator::new();
    allocator.next_index();
    assert!(allocator.free_index(0));
    assert!(!allocator.free_index(0));
    assert!(!allocator.free_index(7));
    assert_eq!(allocator.next_index(), Some(0));
    assert_eq!(allocator.next_index(), Some(1));
}

#[test]
fn subscribers_are_listed_oldest_first() {
    let mut subscriptions = Subscriptions::new();
    assert!(subscriptions.is_empty());
    subscriptions.subscribe(3, 80);
    subscriptions.subscribe(1, 80);
    subscriptions.subscribe(2, 81);
    subscriptions.subscribe(1, 81);
    assert_eq!(subscriptions.get_topic_subscribers(80), vec![3, 1]);
    assert_eq!(subscriptions.get_topic_subscribers(81), vec![2, 1]);
    assert_eq!(subscriptions.get_topic_subscribers(82), Vec::<u32>::new());
    assert_eq!(subscriptions.get_client_topics(1), vec![80, 81]);
    assert_eq!(subscriptions.first_subscriber(80), Some(3));
    assert_eq!(subscriptions.first_subscriber(82), None);
    assert!(subscriptions.has_subscriber(81));
    assert!(subscriptions.has_other_subscriber(80, 3));
    assert!(!subscriptions.has_other_subscriber(82, 3));
}

#[test]
fn subscribing_twice_changes_nothing() {
    let mut subscriptions = Subscriptions::new();
    subscriptions.subscribe(1, 80);
    subscriptions.subscribe(1, 80);
    assert_eq!(subscriptions.get_topic_subscribers(80), vec![1]);
    assert_eq!(subscriptions.get_client_topics(1), vec![80]);
}

#[test]
fn unsubscribe_and_remove_client() {
    let mut subscriptions = Subscriptions::new();
    subscriptions.subscribe(1, 80);
    subscriptions.subscribe(2, 80);
    subscriptions.subscribe(1, 81);
    subscriptions.unsubscribe(1, 80);
    assert!(!subscriptions.is_subscribed(1, 80));
    assert!(subscriptions.is_subscribed(1, 81));
    assert_eq!(subscriptions.get_topic_subscribers(80), vec![2]);
    subscriptions.unsubscribe(7, 80);
    assert_eq!(subscriptions.get_topic_subscribers(80), vec![2]);
    subscriptions.remove_client(1);
    assert_eq!(subscriptions.get_client_topics(1), Vec::<u16>::new());
    assert!(!subscriptions.is_empty());
    subscriptions.remove_client(2);
    assert!(subscriptions.is_empty());
}

#[test]
fn redirects_are_installed_once() {
    let mut tables = SafeIpTables::new();
    assert!(tables.is_empty());
    assert!(tables.add_redirect(80, 4000));
    assert!(!tables.add_redirect(80, 4000));
    assert!(tables.add_redirect(81, 4000));
    assert_eq!(tables.list_rules(), vec![(80, 4000), (81, 4000)]);
    assert!(tables.has_redirect(80, 4000));
    assert!(tables.remove_redirect(80, 4000));
    assert!(!tables.remove_redirect(80, 4000));
    assert!(!tables.has_redirect(80, 4000));
    assert_eq!(tables.list_rules(), vec![(81, 4000)]);
}

#[test]
fn redirect_rule_text() {
    assert_eq!(redirect_rule(80, 34567), "-p tcp --dport 80 -j REDIRECT --to-ports 34567");
    assert_eq!(redirect_rule(0, 65535), "-p tcp --dport 0 -j REDIRECT --to-ports 65535");
    assert_eq!(redirect_rule(7777, 9), "-p tcp --dport 7777 -j REDIRECT --to-ports 9");
    assert_eq!(chain_name(), "MIRRORD_REDIRECT");
}

#[test]
fn ports_in_decimal() {
    assert_eq!(decimal_digits(0), b"0".to_vec());
    assert_eq!(decimal_digits(9), b"9".to_vec());
    assert_eq!(decimal_digits(10), b"10".to_vec());
    assert_eq!(decimal_digits(8080), b"8080".to_vec());
    assert_eq!(decimal_digits(65535), b"65535".to_vec());
}

#[test]
fn highest_common_version() {
    let local = local_announcement();
    assert_eq!(local, VersionSupportAnnouncement { min: 0, max: 2 });
    let peer = VersionSupportAnnouncement { min: 1, max: 5 };
    assert_eq!(local.latest_common(&peer), Some(2));
    assert_eq!(peer.latest_common(&local), Some(2));
    assert_eq!(local.latest_common(&VersionSupportAnnouncement { min: 0, max: 1 }), Some(1));
    assert_eq!(local.latest_common(&VersionSupportAnnouncement { min: 3, max: 4 }), None);
}

#[test]
fn version_is_settled_by_the_peers_answer() {
    let peer = VersionSupportAnnouncement { min: 2, max: 9 };
    assert_eq!(determine_version(Announcement::Received(peer)), Ok(2));
    let stranger = VersionSupportAnnouncement { min: 3, max: 9 };
    assert_eq!(
        determine_version(Announcement::Received(stranger)),
        Err(ProtoVerError::NoCommonVersion {
            local_range: VersionSupportAnnouncement { min: 0, max: 2 },
            peer_range: stranger,
        })
    );
    assert_eq!(determine_version(Announcement::Failed), Err(ProtoVerError::ReceiveFailed));
    assert_eq!(determine_version(Announcement::Closed), Err(ProtoVerError::ReceiveFailed));
}
