use bluenotify::fcm::{build_url, FcmSuccessResponse};
use bluenotify::models::NotificationType;
use bluenotify::settings_sync::notification_setting_rows;
use bluenotify::user_settings::{AccountSetting, PostType, UserSettings as StoredSettings};
use bluenotify::web_json::{Account, NotificationSetting, UserSettings};

fn setting(account: &str, following: &str) -> NotificationSetting {
    NotificationSetting {
        user_account_did: account.to_string(),
        following_did: following.to_string(),
        post_type: vec![NotificationType::Post],
        word_allow_list: None,
        word_block_list: Some(vec!["spoiler".to_string()]),
    }
}

#[test]
fn missing_accounts_are_added_once_in_order() {
    let mut payload = UserSettings {
        fcm_token: "tok".to_string(),
        device_uuid: Some("dev".to_string()),
        accounts: vec![Account { account_did: "did:a".to_string() }],
        notification_settings: vec![
            setting("did:c", "x"),
            setting("did:a", "y"),
            setting("did:b", "z"),
            setting("did:c", "w"),
        ],
    };
    payload.add_missing_accounts();
    let dids: Vec<String> = payload.accounts.iter().map(|a| a.account_did.clone()).collect();
    assert_eq!(dids, vec!["did:a", "did:c", "did:b"]);
    assert_eq!(payload.account_did_list(), vec!["did:a", "did:c", "did:b"]);
    assert_eq!(payload.notification_settings.len(), 4);
    assert_eq!(payload.device_uuid.as_deref(), Some("dev"));
}

#[test]
fn settings_rows_cross_accounts_with_watched_accounts() {
    let stored = StoredSettings {
        doc_id: None,
        accounts: vec!["did:me".to_string(), "did:alt".to_string()],
        fcm_token: "tok".to_string(),
        settings: vec![
            (
                "did:x".to_string(),
                AccountSetting {
                    did: "did:x".to_string(),
                    post_types: vec![PostType::Repost, PostType::ReplyToFriend],
                },
            ),
            (
                "did:y".to_string(),
                AccountSetting { did: "did:y".to_string(), post_types: vec![] },
            ),
        ],
    };
    let rows = notification_setting_rows(&stored);
    let pairs: Vec<(String, String)> = rows
        .iter()
        .map(|r| (r.user_account_did.clone(), r.following_did.clone()))
        .collect();
    assert_eq!(
        pairs,
        vec![
            ("did:me".to_string(), "did:x".to_string()),
            ("did:me".to_string(), "did:y".to_string()),
            ("did:alt".to_string(), "did:x".to_string()),
            ("did:alt".to_string(), "did:y".to_string()),
        ]
    );
    assert_eq!(
        rows[2].post_type,
        vec![NotificationType::Repost, NotificationType::ReplyToFriend]
    );
    assert!(rows[1].post_type.is_empty());
    assert!(rows.iter().all(|r| r.word_allow_list.is_none() && r.word_block_list.is_none()));
    let empty = StoredSettings { doc_id: None, accounts: vec![], fcm_token: "t".to_string(), settings: vec![] };
    assert!(notification_setting_rows(&empty).is_empty());
}

#[test]
fn fcm_send_url() {
    assert_eq!(
        build_url("my-project"),
        "https://fcm.googleapis.com/v1/projects/my-project/messages:send"
    );
    let ok = FcmSuccessResponse { name: "projects/p/messages/1".to_string() };
    assert_eq!(ok.name, "projects/p/messages/1");
}
