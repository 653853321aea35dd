use bluenotify::datetime::UtcDateTime;
use bluenotify::jetstream::{
    extract_did, follow_changes, follow_event_step, jetstream_url, post_publication, post_times,
    route_message, should_inspect, Commit, CommitRecord, FollowCommit, FollowEventStep,
    FollowOperation, FollowRecord, JetstreamFollow, JetstreamFollowEvent, JetstreamPost,
    JetstreamUnfollow, MessageRoute, PostSkip, UnfollowCommit, frame_step, frame_route_of,
    cursor_after, FrameStep, rescan_failure, GetFollowsError, RescanFailure,
};
use bluenotify::nats::nats_address;

fn post(collection: &str, created_at: &str, time_us: u64) -> JetstreamPost {
    JetstreamPost {
        did: "did:plc:author".to_string(),
        time_us,
        commit: Some(Commit {
            collection: collection.to_string(),
            rkey: "3kr".to_string(),
            cid: "cid".to_string(),
            record: CommitRecord {
                commit_type: collection.to_string(),
                created_at: created_at.to_string(),
            },
        }),
    }
}

fn follow() -> JetstreamFollowEvent {
    JetstreamFollowEvent::Follow(JetstreamFollow {
        did: "did:plc:me".to_string(),
        time_us: 1,
        kind: "commit".to_string(),
        commit: FollowCommit {
            rev: "r".to_string(),
            operation: "create".to_string(),
            collection: "app.bsky.graph.follow".to_string(),
            rkey: "k".to_string(),
            record: FollowRecord {
                commit_type: "app.bsky.graph.follow".to_string(),
                subject: "did:plc:them".to_string(),
                created_at: "2024-12-07T05:48:21Z".to_string(),
            },
        },
    })
}

fn unfollow() -> JetstreamFollowEvent {
    JetstreamFollowEvent::Unfollow(JetstreamUnfollow {
        did: "did:plc:me".to_string(),
        time_us: 1,
        kind: "commit".to_string(),
        commit: UnfollowCommit {
            rev: "r".to_string(),
            operation: "delete".to_string(),
            collection: "app.bsky.graph.follow".to_string(),
            rkey: "k".to_string(),
        },
    })
}

#[test]
fn did_is_read_from_raw_text() {
    assert_eq!(
        extract_did(r#"{"did":"did:plc:abc","time_us":1}"#),
        "did:plc:abc"
    );
    assert_eq!(extract_did(r#"{"x":1,"did":"a","did":"b"}"#), "a");
    assert_eq!(extract_did(r#"{"did": "spaced"}"#), "");
    assert_eq!(extract_did(r#"{"did":"unterminated"#), "");
    assert_eq!(extract_did(""), "");
}

#[test]
fn subscription_url_with_and_without_cursor() {
    let base = "wss://jetstream1.us-west.bsky.network/subscribe";
    assert_eq!(
        jetstream_url(base, None),
        "wss://jetstream1.us-west.bsky.network/subscribe?wantedCollections=app.bsky.feed.post&wantedCollections=app.bsky.feed.repost&wantedCollections=app.bsky.graph.follow"
    );
    assert_eq!(
        jetstream_url(base, Some("1733550501000000")),
        "wss://jetstream1.us-west.bsky.network/subscribe?wantedCollections=app.bsky.feed.post&wantedCollections=app.bsky.feed.repost&wantedCollections=app.bsky.graph.follow&cursor=1733550501000000"
    );
}

#[test]
fn messages_are_routed_by_author_and_collection() {
    assert!(!should_inspect("", true, true));
    assert!(!should_inspect("did:x", false, false));
    assert!(should_inspect("did:x", false, true));
    assert_eq!(route_message(false, true, "app.bsky.graph.follow"), MessageRoute::FollowEvent);
    assert_eq!(route_message(true, false, "app.bsky.graph.follow"), MessageRoute::Ignore);
    assert_eq!(route_message(false, true, "app.bsky.feed.post"), MessageRoute::Ignore);
    assert_eq!(route_message(true, true, "app.bsky.feed.post"), MessageRoute::Post);
    assert_eq!(route_message(true, false, "app.bsky.feed.like"), MessageRoute::Post);
}

#[test]
fn post_and_event_times() {
    let p = post("app.bsky.feed.post", "2024-12-07T05:48:21.260Z", 1733550501123456);
    let (post_time, event_time) = post_times(&p).unwrap();
    assert_eq!(post_time.timestamp(), 1733550501);
    assert_eq!(event_time.timestamp(), 1733550501);
    assert_eq!(event_time.subsec_nanos(), 123456000);
    assert_eq!(p.event_datetime().unwrap().subsec_nanos(), 123456000);
    let bad_time = post("app.bsky.feed.post", "yesterday", 1);
    assert_eq!(post_times(&bad_time).err(), Some(PostSkip::NoPostTime));
    let far = post("app.bsky.feed.post", "2024-12-07T05:48:21Z", u64::MAX);
    assert_eq!(post_times(&far).err(), Some(PostSkip::NoEventTime));
    let mut none = p.clone();
    none.commit = None;
    assert_eq!(post_times(&none).err(), Some(PostSkip::NoCommit));
    assert!(none.post_datetime().is_none());
}

#[test]
fn recent_posts_are_published_with_dedup_id() {
    let p = post("app.bsky.feed.repost", "2024-12-07T05:48:21Z", 1733550501000000);
    let post_time = p.post_datetime().unwrap();
    let now = UtcDateTime::from_timestamp(1733550501 + 7200, 0).unwrap();
    let publication = post_publication(&p, &post_time, &now).unwrap();
    assert_eq!(publication.subject, "watched_posts.did:plc:author");
    assert_eq!(publication.msg_id, "did:plc:author.3kr");
    let later = UtcDateTime::from_timestamp(1733550501 + 7200, 1).unwrap();
    assert_eq!(post_publication(&p, &post_time, &later).err(), Some(PostSkip::TooOld));
    let like = post("app.bsky.feed.like", "2024-12-07T05:48:21Z", 1733550501000000);
    assert_eq!(post_publication(&like, &post_time, &now).err(), Some(PostSkip::NotAPost));
}

#[test]
fn follow_events() {
    assert_eq!(follow().did(), "did:plc:me");
    assert_eq!(follow().action(), "follow");
    assert_eq!(unfollow().action(), "unfollow");
    if let JetstreamFollowEvent::Follow(f) = follow() {
        assert_eq!(f.subject(), "did:plc:them");
    }
    assert_eq!(JetstreamFollowEvent::operation_kind(Some("create")), Some(FollowOperation::Follow));
    assert_eq!(JetstreamFollowEvent::operation_kind(Some("delete")), Some(FollowOperation::Unfollow));
    assert_eq!(JetstreamFollowEvent::operation_kind(Some("update")), None);
    assert_eq!(JetstreamFollowEvent::operation_kind(None), None);
}

#[test]
fn follow_event_steps() {
    assert!(matches!(follow_event_step(&follow(), None), FollowEventStep::RetryLater));
    assert!(matches!(follow_event_step(&follow(), Some(true)), FollowEventStep::Done));
    match follow_event_step(&follow(), Some(false)) {
        FollowEventStep::Insert(row) => {
            assert_eq!(row.account_did, "did:plc:me");
            assert_eq!(row.follow_did, "did:plc:them");
        }
        _ => panic!("expected an insert"),
    }
    match follow_event_step(&unfollow(), Some(false)) {
        FollowEventStep::Rescan(did) => assert_eq!(did, "did:plc:me"),
        _ => panic!("expected a rescan"),
    }
}

#[test]
fn follow_changes_bring_stored_follows_to_reported_ones() {
    let existing: Vec<String> = ["a", "b", "c", "b"].iter().map(|s| s.to_string()).collect();
    let follows: Vec<String> = ["c", "d", "d", "e"].iter().map(|s| s.to_string()).collect();
    let (to_remove, to_add) = follow_changes(&existing, &follows);
    assert_eq!(to_remove, vec!["a".to_string(), "b".to_string()]);
    assert_eq!(to_add, vec!["d".to_string(), "e".to_string()]);
    let mut result: Vec<String> = existing
        .iter()
        .filter(|s| !to_remove.contains(s))
        .cloned()
        .chain(to_add.iter().cloned())
        .collect();
    result.sort();
    result.dedup();
    assert_eq!(result, vec!["c".to_string(), "d".to_string(), "e".to_string()]);
}

const FRAME: &str = r#"{"did":"did:plc:author","time_us":1733550501000000,"commit":{"collection":"app.bsky.feed.post"}}"#;

#[test]
fn frames_are_published_only_for_watched_recent_posts() {
    let p = post("app.bsky.feed.post", "2024-12-07T05:48:21Z", 1733550501000000);
    let now = UtcDateTime::from_timestamp(1733550501 + 60, 0).unwrap();
    let step = frame_step(FRAME, true, false, Some("app.bsky.feed.post"), Some(&p), &now);
    match &step {
        FrameStep::Publish { publication, cursor } => {
            assert_eq!(publication.subject, "watched_posts.did:plc:author");
            assert_eq!(publication.msg_id, "did:plc:author.3kr");
            assert_eq!(*cursor, 1733550501000000);
        }
        _ => panic!("expected a publication"),
    }
    assert_eq!(cursor_after(&step, true), Some(1733550501000000));
    assert_eq!(cursor_after(&step, false), None);
    // Not watched: only an app user, so a post is dropped.
    let step = frame_step(FRAME, false, true, Some("app.bsky.feed.post"), Some(&p), &now);
    assert!(matches!(step, FrameStep::Ignore));
    assert_eq!(cursor_after(&step, true), None);
    // Neither watched nor an app user.
    assert!(matches!(frame_step(FRAME, false, false, None, None, &now), FrameStep::Ignore));
    // No author in the text.
    assert!(matches!(frame_step("{}", true, true, Some("app.bsky.feed.post"), Some(&p), &now), FrameStep::Ignore));
    // Not JSON.
    assert!(matches!(frame_step(FRAME, true, false, None, None, &now), FrameStep::NotJson));
    // Does not read as a post.
    assert!(matches!(frame_step(FRAME, true, false, Some("app.bsky.feed.post"), None, &now), FrameStep::NotAPostMessage));
    // Too old.
    let late = UtcDateTime::from_timestamp(1733550501 + 7201, 0).unwrap();
    assert!(matches!(
        frame_step(FRAME, true, false, Some("app.bsky.feed.post"), Some(&p), &late),
        FrameStep::Skip(PostSkip::TooOld)
    ));
    // A like of a watched account is not a post.
    let like = post("app.bsky.feed.like", "2024-12-07T05:48:21Z", 1733550501000000);
    assert!(matches!(
        frame_step(FRAME, true, false, Some("app.bsky.feed.like"), Some(&like), &now),
        FrameStep::Skip(PostSkip::NotAPost)
    ));
}

#[test]
fn follow_frames_go_to_the_follow_handler_and_are_never_published() {
    let now = UtcDateTime::from_timestamp(1733550501, 0).unwrap();
    let follow_frame = r#"{"did":"did:plc:me","commit":{"collection":"app.bsky.graph.follow"}}"#;
    assert!(matches!(
        frame_step(follow_frame, true, true, Some("app.bsky.graph.follow"), None, &now),
        FrameStep::RecordFollow
    ));
    assert!(matches!(
        frame_step(follow_frame, true, false, Some("app.bsky.graph.follow"), None, &now),
        FrameStep::Ignore
    ));
    assert_eq!(
        frame_route_of(follow_frame, true, true, Some("app.bsky.graph.follow")),
        MessageRoute::FollowEvent
    );
    assert_eq!(frame_route_of(FRAME, true, false, Some("app.bsky.feed.post")), MessageRoute::Post);
    assert_eq!(frame_route_of(FRAME, true, false, None), MessageRoute::Ignore);
}

#[test]
fn failed_rescans_mark_delete_or_give_up() {
    assert_eq!(rescan_failure(&GetFollowsError::TooManyFollows(9000)), RescanFailure::MarkTooManyFollows);
    assert_eq!(rescan_failure(&GetFollowsError::DisabledAccount), RescanFailure::DeleteAccount);
    assert_eq!(rescan_failure(&GetFollowsError::Request("timeout".to_string())), RescanFailure::GiveUp);
}

#[test]
fn nats_address_gets_the_default_port() {
    assert_eq!(nats_address("localhost"), "localhost:4222");
    assert_eq!(nats_address("nats:4333"), "nats:4333");
    assert_eq!(nats_address(""), ":4222");
}
