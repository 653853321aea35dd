use bluenotify::user_settings::{AccountSetting, AllUserSettings, PostType, UserSettings};

fn setting(did: &str, post_types: Vec<PostType>) -> (String, AccountSetting) {
    (
        did.to_string(),
        AccountSetting { did: did.to_string(), post_types },
    )
}

fn user(token: &str, accounts: Vec<&str>, settings: Vec<(String, AccountSetting)>) -> UserSettings {
    UserSettings {
        doc_id: None,
        accounts: accounts.into_iter().map(|a| a.to_string()).collect(),
        fcm_token: token.to_string(),
        settings,
    }
}

#[test]
fn post_type_debug_names() {
    assert_eq!(PostType::Post.debug_name(), format!("{:?}", PostType::Post));
    assert_eq!(PostType::Repost.debug_name(), format!("{:?}", PostType::Repost));
    assert_eq!(PostType::Reply.debug_name(), format!("{:?}", PostType::Reply));
    assert_eq!(
        PostType::ReplyToFriend.debug_name(),
        format!("{:?}", PostType::ReplyToFriend)
    );
}

#[test]
fn stringified_sorts_settings_post_types_and_accounts() {
    let u = user(
        "tok",
        vec!["did:b", "did:a"],
        vec![
            setting("did:z", vec![PostType::Repost, PostType::Post]),
            setting("did:m", vec![PostType::ReplyToFriend, PostType::Reply]),
        ],
    );
    assert_eq!(
        u.stringified(),
        "tokdid:mReplyReplyToFrienddid:zPostRepostdid:adid:b"
    );
}

#[test]
fn settings_equal_whatever_their_order() {
    let a = user(
        "tok",
        vec!["did:a", "did:b"],
        vec![
            setting("did:x", vec![PostType::Post, PostType::Reply]),
            setting("did:y", vec![PostType::Repost]),
        ],
    );
    let mut b = user(
        "tok",
        vec!["did:b", "did:a"],
        vec![
            setting("did:y", vec![PostType::Repost]),
            setting("did:x", vec![PostType::Reply, PostType::Post]),
        ],
    );
    b.doc_id = Some("doc".to_string());
    assert!(a == b);
    let c = user("other", vec!["did:a", "did:b"], vec![]);
    assert!(a != c);
    let d = user(
        "tok",
        vec!["did:a", "did:b"],
        vec![
            setting("did:x", vec![PostType::Post]),
            setting("did:y", vec![PostType::Repost]),
        ],
    );
    assert!(a != d);
}

#[test]
fn all_user_settings_index_watchers() {
    let s1 = user(
        "t1",
        vec!["did:me"],
        vec![setting("did:x", vec![PostType::Post]), setting("did:y", vec![PostType::Post])],
    );
    let s2 = user("t2", vec!["did:you"], vec![setting("did:y", vec![PostType::Reply])]);
    let s3 = user("t3", vec![], vec![]);
    let all = AllUserSettings::new(vec![
        ("t1".to_string(), s1),
        ("t2".to_string(), s2),
        ("t3".to_string(), s3),
    ]);
    assert_eq!(all.settings.len(), 3);
    let mut index = all.fcm_tokens_by_watched.clone();
    index.sort();
    for (_, tokens) in index.iter_mut() {
        tokens.sort();
    }
    assert_eq!(
        index,
        vec![
            ("did:x".to_string(), vec!["t1".to_string()]),
            ("did:y".to_string(), vec!["t1".to_string(), "t2".to_string()]),
        ]
    );
}

#[test]
fn rebuild_cache_replaces_old_index() {
    let mut all = AllUserSettings::new(vec![]);
    assert!(all.fcm_tokens_by_watched.is_empty());
    all.settings.push((
        "t9".to_string(),
        user("t9", vec![], vec![setting("did:q", vec![PostType::Repost])]),
    ));
    all.fcm_tokens_by_watched.push(("did:stale".to_string(), vec!["gone".to_string()]));
    all.rebuild_cache();
    assert_eq!(
        all.fcm_tokens_by_watched,
        vec![("did:q".to_string(), vec!["t9".to_string()])]
    );
}
