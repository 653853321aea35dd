//! Database row values that the library's logic produces or reads.

use vstd::prelude::*;

use crate::text::str_eq;
use crate::user_settings::PostType;

verus! {

/// The kinds of notification a stored setting can ask for.
#[derive(Clone, Copy, Debug, PartialEq, Eq, Structural)]
pub enum NotificationType {
    Post,
    Repost,
    Reply,
    ReplyToFriend,
}

/// The camel-case name under which a notification type is stored and shown.
pub open spec fn notification_type_name(t: NotificationType) -> Seq<char> {
    match t {
        NotificationType::Post => seq!['p', 'o', 's', 't'],
        NotificationType::Repost => seq!['r', 'e', 'p', 'o', 's', 't'],
        NotificationType::Reply => seq!['r', 'e', 'p', 'l', 'y'],
        NotificationType::ReplyToFriend => seq![
            'r', 'e', 'p', 'l', 'y', 'T', 'o', 'F', 'r', 'i', 'e', 'n', 'd',
        ],
    }
}

/// The notification type a name stands for, if any.
pub open spec fn notification_type_named(s: Seq<char>) -> Option<NotificationType> {
    if s == notification_type_name(NotificationType::Post) {
        Some(NotificationType::Post)
    } else if s == notification_type_name(NotificationType::Repost) {
        Some(NotificationType::Repost)
    } else if s == notification_type_name(NotificationType::Reply) {
        Some(NotificationType::Reply)
    } else if s == notification_type_name(NotificationType::ReplyToFriend) {
        Some(NotificationType::ReplyToFriend)
    } else {
        None
    }
}

impl NotificationType {
    /// The notification type named `s` (`post`, `repost`, `reply` or `replyToFriend`).
    pub fn from_str(s: &str) -> (r: Option<NotificationType>)
        ensures
            r == notification_type_named(s@),
    {
        proof {
            reveal_strlit("post");
            reveal_strlit("repost");
            reveal_strlit("reply");
            reveal_strlit("replyToFriend");
            assert("post"@ =~= notification_type_name(NotificationType::Post));
            assert("repost"@ =~= notification_type_name(NotificationType::Repost));
            assert("reply"@ =~= notification_type_name(NotificationType::Reply));
            assert("replyToFriend"@ =~= notification_type_name(NotificationType::ReplyToFriend));
        }
        if str_eq(s, "post") {
            Some(NotificationType::Post)
        } else if str_eq(s, "repost") {
            Some(NotificationType::Repost)
        } else if str_eq(s, "reply") {
            Some(NotificationType::Reply)
        } else if str_eq(s, "replyToFriend") {
            Some(NotificationType::ReplyToFriend)
        } else {
            None
        }
    }

    /// The name of the notification type, as its `Display` form writes it.
    pub fn to_string(&self) -> (r: String)
        ensures
            r@ == notification_type_name(*self),
    {
        proof {
            reveal_strlit("post");
            reveal_strlit("repost");
            reveal_strlit("reply");
            reveal_strlit("replyToFriend");
        }
        match self {
            NotificationType::Post => String::from_str("post"),
            NotificationType::Repost => String::from_str("repost"),
            NotificationType::Reply => String::from_str("reply"),
            NotificationType::ReplyToFriend => String::from_str("replyToFriend"),
        }
    }

    /// The notification type that a settings document's post type asks for.
    pub fn from_post_type(p: PostType) -> (r: NotificationType)
        ensures
            r == notification_type_for(p),
    {
        match p {
            PostType::Post => NotificationType::Post,
            PostType::Repost => NotificationType::Repost,
            PostType::Reply => NotificationType::Reply,
            PostType::ReplyToFriend => NotificationType::ReplyToFriend,
        }
    }
}

/// Each post type asks for the notification type of the same name.
pub open spec fn notification_type_for(p: PostType) -> NotificationType {
    match p {
        PostType::Post => NotificationType::Post,
        PostType::Repost => NotificationType::Repost,
        PostType::Reply => NotificationType::Reply,
        PostType::ReplyToFriend => NotificationType::ReplyToFriend,
    }
}

/// Reading back the name of a notification type gives that type, and names of
/// different types differ.
pub proof fn lemma_notification_type_name_roundtrip(t: NotificationType, u: NotificationType)
    ensures
        notification_type_named(notification_type_name(t)) == Some(t),
        t != u ==> notification_type_name(t) != notification_type_name(u),
{
    let p = notification_type_name(NotificationType::Post);
    let rp = notification_type_name(NotificationType::Repost);
    let r = notification_type_name(NotificationType::Reply);
    let rf = notification_type_name(NotificationType::ReplyToFriend);
    assert(p != rp) by { assert(p.len() != rp.len()); }
    assert(p != r) by { assert(p.len() != r.len()); }
    assert(p != rf) by { assert(p.len() != rf.len()); }
    assert(rp != r) by { assert(rp.len() != r.len()); }
    assert(rp != rf) by { assert(rp.len() != rf.len()); }
    assert(r != rf) by { assert(r.len() != rf.len()); }
}

/// Different post types ask for different notification types.
pub proof fn lemma_notification_type_for_injective(p: PostType, q: PostType)
    ensures
        p != q ==> notification_type_for(p) != notification_type_for(q),
{
}

/// The marker of the database's `post_notification_type` enumeration.
pub struct PostNotificationType;

/// A recorded follow: the user account `account_did` follows `follow_did`.
#[derive(Clone, Debug, PartialEq, Eq)]
pub struct AccountFollow {
    pub account_did: String,
    pub follow_did: String,
}

/// Each notification type is named by its variant name in camel case, and each of those
/// names reads back as its type; any other text names no type.
pub proof fn lemma_notification_type_names()
    ensures
        notification_type_name(NotificationType::Post) == "post"@,
        notification_type_name(NotificationType::Repost) == "repost"@,
        notification_type_name(NotificationType::Reply) == "reply"@,
        notification_type_name(NotificationType::ReplyToFriend) == "replyToFriend"@,
        notification_type_named("post"@) == Some(NotificationType::Post),
        notification_type_named("repost"@) == Some(NotificationType::Repost),
        notification_type_named("reply"@) == Some(NotificationType::Reply),
        notification_type_named("replyToFriend"@) == Some(NotificationType::ReplyToFriend),
        forall|s: Seq<char>|
            s != "post"@ && s != "repost"@ && s != "reply"@ && s != "replyToFriend"@
                ==> #[trigger] notification_type_named(s) is None,
{
    reveal_strlit("post");
    reveal_strlit("repost");
    reveal_strlit("reply");
    reveal_strlit("replyToFriend");
    assert("post"@ =~= notification_type_name(NotificationType::Post));
    assert("repost"@ =~= notification_type_name(NotificationType::Repost));
    assert("reply"@ =~= notification_type_name(NotificationType::Reply));
    assert("replyToFriend"@ =~= notification_type_name(NotificationType::ReplyToFriend));
    lemma_notification_type_name_roundtrip(NotificationType::Post, NotificationType::Repost);
    lemma_notification_type_name_roundtrip(NotificationType::Repost, NotificationType::Post);
    lemma_notification_type_name_roundtrip(NotificationType::Reply, NotificationType::Post);
    lemma_notification_type_name_roundtrip(NotificationType::ReplyToFriend, NotificationType::Post);
}

/// Each post type asks for the notification type of the same kind.
pub proof fn lemma_notification_type_for_kinds(p: PostType)
    ensures
        (notification_type_for(p) == NotificationType::Post) == (p == PostType::Post),
        (notification_type_for(p) == NotificationType::Repost) == (p == PostType::Repost),
        (notification_type_for(p) == NotificationType::Reply) == (p == PostType::Reply),
        (notification_type_for(p) == NotificationType::ReplyToFriend) == (p == PostType::ReplyToFriend),
{
}

} // verus!
