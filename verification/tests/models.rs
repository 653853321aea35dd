use bluenotify::models::{AccountFollow, NotificationType};
use bluenotify::user_settings::PostType;

#[test]
fn notification_type_names_round_trip() {
    for t in [
        NotificationType::Post,
        NotificationType::Repost,
        NotificationType::Reply,
        NotificationType::ReplyToFriend,
    ] {
        assert_eq!(NotificationType::from_str(&t.to_string()), Some(t));
    }
    assert_eq!(NotificationType::ReplyToFriend.to_string(), "replyToFriend");
    assert_eq!(NotificationType::from_str("Post"), None);
    assert_eq!(NotificationType::from_str(""), None);
    assert_eq!(NotificationType::from_str("reply"), Some(NotificationType::Reply));
}

#[test]
fn post_types_map_to_notification_types() {
    assert_eq!(NotificationType::from_post_type(PostType::Post), NotificationType::Post);
    assert_eq!(NotificationType::from_post_type(PostType::Repost), NotificationType::Repost);
    assert_eq!(NotificationType::from_post_type(PostType::Reply), NotificationType::Reply);
    assert_eq!(
        NotificationType::from_post_type(PostType::ReplyToFriend),
        NotificationType::ReplyToFriend
    );
}

#[test]
fn account_follow_holds_both_dids() {
    let f = AccountFollow { account_did: "a".to_string(), follow_did: "b".to_string() };
    assert_eq!(f.clone(), f);
}
