//! Messages of the Bluesky Jetstream and the decisions the reader takes on them.

use vstd::prelude::*;

use crate::bluesky_utils::parse_created_at;
use crate::created_at::{created_at_defined, spec_parse_created_at};
use crate::datetime::{timestamp_in_range, UtcDateTime};
use crate::models::AccountFollow;
use crate::text::{
    after_first, before_first, chars_of, lemma_find_from_first, occurs_at, contains_str, find_first, str_eq, string_from_range,
};

verus! {

/// A post or repost event of the Jetstream.
#[derive(Clone, Debug)]
pub struct JetstreamPost {
    pub did: String,
    pub time_us: u64,
    pub commit: Option<Commit>,
}

/// The commit of a post event.
#[derive(Clone, Debug)]
pub struct Commit {
    pub collection: String,
    pub rkey: String,
    pub cid: String,
    pub record: CommitRecord,
}

/// The record of a post commit.
#[derive(Clone, Debug)]
pub struct CommitRecord {
    pub commit_type: String,
    pub created_at: String,
}

/// A follow event: `did` started following `commit.record.subject`.
#[derive(Clone, Debug)]
pub struct JetstreamFollow {
    pub did: String,
    pub time_us: u64,
    pub kind: String,
    pub commit: FollowCommit,
}

/// The commit of a follow event.
#[derive(Clone, Debug)]
pub struct FollowCommit {
    pub rev: String,
    pub operation: String,
    pub collection: String,
    pub rkey: String,
    pub record: FollowRecord,
}

/// The record of a follow commit.
#[derive(Clone, Debug)]
pub struct FollowRecord {
    pub commit_type: String,
    pub subject: String,
    pub created_at: String,
}

/// An unfollow event: `did` deleted one of its follow records.
#[derive(Clone, Debug)]
pub struct JetstreamUnfollow {
    pub did: String,
    pub time_us: u64,
    pub kind: String,
    pub commit: UnfollowCommit,
}

/// The commit of an unfollow event.
#[derive(Clone, Debug)]
pub struct UnfollowCommit {
    pub rev: String,
    pub operation: String,
    pub collection: String,
    pub rkey: String,
}

/// A change to the follows of an account.
#[derive(Clone, Debug)]
pub enum JetstreamFollowEvent {
    Follow(JetstreamFollow),
    Unfollow(JetstreamUnfollow),
}

/// The seconds since the epoch at which an event was emitted.
pub open spec fn event_seconds(time_us: u64) -> int {
    time_us as int / 1_000_000
}

/// The nanoseconds past that second.
pub open spec fn event_nanos(time_us: u64) -> int {
    (time_us as int % 1_000_000) * 1000
}

impl JetstreamPost {
    /// The time at which the Jetstream emitted the event, from its microsecond timestamp;
    /// `None` when that time is out of chrono's range.
    pub fn event_datetime(&self) -> (r: Option<UtcDateTime>)
        ensures
            r is Some <==> timestamp_in_range(event_seconds(self.time_us)),
            r matches Some(dt) ==> dt@ == (event_seconds(self.time_us), event_nanos(self.time_us)),
    {
        let secs = (self.time_us / 1_000_000) as i64;
        let nanos = ((self.time_us % 1_000_000) * 1000) as u32;
        UtcDateTime::from_timestamp(secs, nanos)
    }

    /// The time the post claims to have been created at; `None` without a commit or when
    /// its `createdAt` does not read as a timestamp.
    pub fn post_datetime(&self) -> (r: Option<UtcDateTime>)
        requires
            self.commit matches Some(c) ==> created_at_defined(c.record.created_at@),
        ensures
            match self.commit {
                None => r is None,
                Some(c) => match spec_parse_created_at(c.record.created_at@) {
                    Ok(t) => r matches Some(dt) && dt@ == (t, 0int),
                    Err(_) => r is None,
                },
            },
    {
        match &self.commit {
            None => None,
            Some(c) => match parse_created_at(c.record.created_at.as_str()) {
                Ok(time) => Some(time),
                Err(_) => None,
            },
        }
    }
}

impl JetstreamFollow {
    /// The account that was followed.
    pub fn subject(&self) -> (r: String)
        ensures
            r@ == self.commit.record.subject@,
    {
        self.commit.record.subject.clone()
    }
}

/// The account whose follows changed.
pub open spec fn follow_event_did(e: JetstreamFollowEvent) -> Seq<char> {
    match e {
        JetstreamFollowEvent::Follow(f) => f.did@,
        JetstreamFollowEvent::Unfollow(u) => u.did@,
    }
}

/// The word for the kind of change: `follow` or `unfollow`.
pub open spec fn follow_event_action(e: JetstreamFollowEvent) -> Seq<char> {
    match e {
        JetstreamFollowEvent::Follow(_) => seq!['f', 'o', 'l', 'l', 'o', 'w'],
        JetstreamFollowEvent::Unfollow(_) => seq!['u', 'n', 'f', 'o', 'l', 'l', 'o', 'w'],
    }
}

/// The two operations a follow commit can carry.
#[derive(Clone, Copy, Debug, PartialEq, Eq, Structural)]
pub enum FollowOperation {
    /// `create`: a follow record was written.
    Follow,
    /// `delete`: a follow record was removed.
    Unfollow,
}

/// The kind of follow event that a commit operation announces, if it is one.
pub open spec fn follow_operation_of(op: Option<Seq<char>>) -> Option<FollowOperation> {
    match op {
        Some(s) => if s == seq!['c', 'r', 'e', 'a', 't', 'e'] {
            Some(FollowOperation::Follow)
        } else if s == seq!['d', 'e', 'l', 'e', 't', 'e'] {
            Some(FollowOperation::Unfollow)
        } else {
            None
        },
        None => None,
    }
}

impl JetstreamFollowEvent {
    /// The account whose follows changed.
    pub fn did(&self) -> (r: String)
        ensures
            r@ == follow_event_did(*self),
    {
        match self {
            JetstreamFollowEvent::Follow(follow) => follow.did.clone(),
            JetstreamFollowEvent::Unfollow(unfollow) => unfollow.did.clone(),
        }
    }

    /// `follow` or `unfollow`.
    pub fn action(&self) -> (r: String)
        ensures
            r@ == follow_event_action(*self),
    {
        proof {
            reveal_strlit("follow");
            reveal_strlit("unfollow");
        }
        match self {
            JetstreamFollowEvent::Follow(_) => String::from_str("follow"),
            JetstreamFollowEvent::Unfollow(_) => String::from_str("unfollow"),
        }
    }

    /// The kind of event that the commit operation (`commit.operation` of the message)
    /// announces: `create` a follow, `delete` an unfollow; `None` for an unknown operation.
    pub fn operation_kind(operation: Option<&str>) -> (r: Option<FollowOperation>)
        ensures
            r == follow_operation_of(
                match operation {
                    Some(s) => Some(s@),
                    None => None,
                },
            ),
    {
        proof {
            reveal_strlit("create");
            reveal_strlit("delete");
            assert("create"@ =~= seq!['c', 'r', 'e', 'a', 't', 'e']);
            assert("delete"@ =~= seq!['d', 'e', 'l', 'e', 't', 'e']);
        }
        match operation {
            Some(op) => if str_eq(op, "create") {
                Some(FollowOperation::Follow)
            } else if str_eq(op, "delete") {
                Some(FollowOperation::Unfollow)
            } else {
                None
            },
            None => None,
        }
    }
}

/// The key that announces the author of a message: `"did":"`.
pub open spec fn did_key() -> Seq<char> {
    seq!['"', 'd', 'i', 'd', '"', ':', '"']
}

/// The author DID that the reader takes from a raw message: the text between the first
/// `"did":"` and the next `"`, or nothing when either is missing.
pub open spec fn did_in_message(text: Seq<char>) -> Seq<char> {
    before_first(after_first(text, did_key()), seq!['"'])
}

/// A message whose text before its `"did":"` key holds no quote, and whose DID holds no
/// quote, has that DID read as its author.
pub proof fn lemma_did_of_message(prefix: Seq<char>, did: Seq<char>, rest: Seq<char>)
    requires
        !prefix.contains('"'),
        !did.contains('"'),
    ensures
        did_in_message(prefix + did_key() + did + seq!['"'] + rest) == did,
{
    let text = prefix + did_key() + did + seq!['"'] + rest;
    let key = did_key();
    let p = prefix.len() as int;
    assert(text.subrange(p, p + key.len()) =~= key);
    assert forall|j: int| 0 <= j < p implies !occurs_at(text, key, j) by {
        if occurs_at(text, key, j) {
            assert(text.subrange(j, j + key.len())[0] == key[0]);
            assert(text[j] == prefix[j]);
            assert(prefix.contains('"'));
        }
    }
    lemma_find_from_first(text, key, 0, p);
    let after = text.subrange(p + key.len(), text.len() as int);
    assert(after =~= did + seq!['"'] + rest);
    let q = seq!['"'];
    let d = did.len() as int;
    assert(after.subrange(d, d + 1) =~= q);
    assert forall|j: int| 0 <= j < d implies !occurs_at(after, q, j) by {
        if occurs_at(after, q, j) {
            assert(after.subrange(j, j + 1)[0] == q[0]);
            assert(after[j] == did[j]);
            assert(did.contains('"'));
        }
    }
    lemma_find_from_first(after, q, 0, d);
    assert(after.subrange(0, d) =~= did);
}

/// The characters `v[from..to]`.
fn char_range(v: &Vec<char>, from: usize, to: usize) -> (r: Vec<char>)
    requires
        from <= to <= v.len(),
    ensures
        r@ == v@.subrange(from as int, to as int),
{
    let mut r: Vec<char> = Vec::new();
    let mut i = from;
    while i < to
        invariant
            from <= i <= to <= v.len(),
            r@ == v@.subrange(from as int, i as int),
        decreases to - i,
    {
        r.push(v[i]);
        i = i + 1;
    }
    r
}

/// The author DID of a raw Jetstream message, read without parsing the JSON.
pub fn extract_did(text: &str) -> (r: String)
    ensures
        r@ == did_in_message(text@),
{
    let v = chars_of(text);
    let key = chars_of("\"did\":\"");
    let quote = chars_of("\"");
    proof {
        reveal_strlit("\"did\":\"");
        reveal_strlit("\"");
        assert(key@ =~= did_key());
        assert(quote@ =~= seq!['"']);
    }
    let n = v.len();
    let found = find_first(&v, &key);
    let rest = match found {
        Some(i) => {
            assert(occurs_at(v@, key@, i as int));
            char_range(&v, i + key.len(), n)
        },
        None => Vec::new(),
    };
    assert(rest@ =~= after_first(v@, did_key()));
    match find_first(&rest, &quote) {
        Some(j) => string_from_range(&rest, 0, j),
        None => String::new(),
    }
}

/// The query that asks the Jetstream for posts, reposts and follows.
pub open spec fn jetstream_query() -> Seq<char> {
    "?wantedCollections=app.bsky.feed.post&wantedCollections=app.bsky.feed.repost&wantedCollections=app.bsky.graph.follow"@
}

/// The cursor parameter that resumes the stream at a given event time.
pub open spec fn cursor_param() -> Seq<char> {
    "&cursor="@
}

/// The URL of the Jetstream subscription: the endpoint, the wanted collections, and the
/// time of the last handled event as cursor when there is one.
pub fn jetstream_url(base_url: &str, last_event_time: Option<&str>) -> (r: String)
    ensures
        r@ == base_url@ + jetstream_query() + match last_event_time {
            Some(t) => cursor_param() + t@,
            None => Seq::empty(),
        },
{
    let mut url = String::from_str(base_url);
    url.append("?wantedCollections=app.bsky.feed.post&wantedCollections=app.bsky.feed.repost&wantedCollections=app.bsky.graph.follow");
    match last_event_time {
        Some(t) => {
            url.append("&cursor=");
            url.append(t);
        },
        None => {},
    }
    url
}

/// A message is worth reading when it names an author that is watched or that uses the app.
pub fn should_inspect(did: &str, is_watched: bool, is_bluenotify: bool) -> (r: bool)
    ensures
        r == (did@.len() > 0 && (is_watched || is_bluenotify)),
{
    !did.is_empty() && (is_watched || is_bluenotify)
}

/// The collection of follow records.
pub open spec fn follow_collection() -> Seq<char> {
    "app.bsky.graph.follow"@
}

/// The collection of posts.
pub open spec fn post_collection() -> Seq<char> {
    "app.bsky.feed.post"@
}

/// The collection of reposts.
pub open spec fn repost_collection() -> Seq<char> {
    "app.bsky.feed.repost"@
}

/// What the reader does with a message it inspects.
#[derive(Clone, Copy, Debug, PartialEq, Eq, Structural)]
pub enum MessageRoute {
    /// Drop the message.
    Ignore,
    /// Record the follow or unfollow of an app user.
    FollowEvent,
    /// Treat the message as a post of a watched account.
    Post,
}

/// Follows of app users are recorded; other messages of watched accounts are handled
/// as posts; the rest is dropped.
pub open spec fn message_route(is_watched: bool, is_bluenotify: bool, collection: Seq<char>) -> MessageRoute {
    if collection == follow_collection() && is_bluenotify {
        MessageRoute::FollowEvent
    } else if !is_watched || collection == follow_collection() {
        MessageRoute::Ignore
    } else {
        MessageRoute::Post
    }
}

/// Decides what to do with a message from its author's standing and its collection.
pub fn route_message(is_watched: bool, is_bluenotify: bool, collection: &str) -> (r: MessageRoute)
    ensures
        r == message_route(is_watched, is_bluenotify, collection@),
{
    let is_follow = str_eq(collection, "app.bsky.graph.follow");
    if is_follow && is_bluenotify {
        MessageRoute::FollowEvent
    } else if !is_watched || is_follow {
        MessageRoute::Ignore
    } else {
        MessageRoute::Post
    }
}

/// Why a post message is not forwarded.
#[derive(Clone, Copy, Debug, PartialEq, Eq, Structural)]
pub enum PostSkip {
    /// The message carries no commit.
    NoCommit,
    /// Its `createdAt` does not read as a timestamp.
    NoPostTime,
    /// Its event time is out of range.
    NoEventTime,
    /// The post was created more than two hours before now.
    TooOld,
    /// The commit is neither a post nor a repost.
    NotAPost,
}

/// The creation time and event time of a post message, or why they cannot be had.
pub fn post_times(post: &JetstreamPost) -> (r: Result<(UtcDateTime, UtcDateTime), PostSkip>)
    requires
        post.commit matches Some(c) ==> created_at_defined(c.record.created_at@),
    ensures
        match post.commit {
            None => r == Err::<(UtcDateTime, UtcDateTime), PostSkip>(PostSkip::NoCommit),
            Some(c) => match spec_parse_created_at(c.record.created_at@) {
                Err(_) => r == Err::<(UtcDateTime, UtcDateTime), PostSkip>(PostSkip::NoPostTime),
                Ok(t) => if timestamp_in_range(event_seconds(post.time_us)) {
                    r matches Ok((p, e)) && p@ == (t, 0int) && e@ == (event_seconds(post.time_us), event_nanos(post.time_us))
                } else {
                    r == Err::<(UtcDateTime, UtcDateTime), PostSkip>(PostSkip::NoEventTime)
                },
            },
        },
{
    if post.commit.is_none() {
        return Err(PostSkip::NoCommit);
    }
    let post_time = match post.post_datetime() {
        Some(time) => time,
        None => {
            return Err(PostSkip::NoPostTime);
        },
    };
    let event_time = match post.event_datetime() {
        Some(time) => time,
        None => {
            return Err(PostSkip::NoEventTime);
        },
    };
    Ok((post_time, event_time))
}

/// How old a post may be and still be forwarded, in seconds (two hours).
pub open spec fn oldest_post_age() -> int {
    7200
}

/// The date-time `a` lies strictly before `b`.
pub open spec fn datetime_before(a: (int, int), b: (int, int)) -> bool {
    a.0 < b.0 || (a.0 == b.0 && a.1 < b.1)
}

/// Where and under which deduplication id a post is published.
pub struct PostPublication {
    /// `watched_posts.{did}`.
    pub subject: String,
    /// `{did}.{rkey}`.
    pub msg_id: String,
}

/// The subject under which the posts of `did` are published.
pub open spec fn post_subject(did: Seq<char>) -> Seq<char> {
    "watched_posts."@ + did
}

/// The message id that lets the stream drop a post published twice.
pub open spec fn post_msg_id(did: Seq<char>, rkey: Seq<char>) -> Seq<char> {
    did + "."@ + rkey
}

/// Decides whether a post created at `post_time` is forwarded at time `now`: not when it
/// is more than two hours old, has no commit, or is neither a post nor a repost.
pub fn post_publication(post: &JetstreamPost, post_time: &UtcDateTime, now: &UtcDateTime) -> (r:
    Result<PostPublication, PostSkip>)
    requires
        timestamp_in_range(now@.0 - oldest_post_age()),
    ensures
        if datetime_before(post_time@, (now@.0 - oldest_post_age(), now@.1)) {
            r matches Err(PostSkip::TooOld)
        } else {
            match post.commit {
                None => r matches Err(PostSkip::NoCommit),
                Some(c) => if c.collection@ != post_collection() && c.collection@ != repost_collection() {
                    r matches Err(PostSkip::NotAPost)
                } else {
                    r matches Ok(p) && p.subject@ == post_subject(post.did@) && p.msg_id@
                        == post_msg_id(post.did@, c.rkey@)
                },
            }
        },
{
    let nanos = now.subsec_nanos();
    let secs = now.timestamp();
    let limit = match UtcDateTime::from_timestamp(secs - 7200, nanos) {
        Some(limit) => limit,
        None => {
            return Err(PostSkip::TooOld);
        },
    };
    if post_time.is_before(&limit) {
        return Err(PostSkip::TooOld);
    }
    let commit = match &post.commit {
        Some(commit) => commit,
        None => {
            return Err(PostSkip::NoCommit);
        },
    };
    if !str_eq(commit.collection.as_str(), "app.bsky.feed.post") && !str_eq(
        commit.collection.as_str(),
        "app.bsky.feed.repost",
    ) {
        return Err(PostSkip::NotAPost);
    }
    let mut subject = String::from_str("watched_posts.");
    subject.append(post.did.as_str());
    let mut msg_id = post.did.clone();
    msg_id.append(".");
    msg_id.append(commit.rkey.as_str());
    Ok(PostPublication { subject, msg_id })
}

/// `v` holds a string with the characters `s`.
pub open spec fn has_str(v: Seq<String>, s: Seq<char>) -> bool {
    exists|k: int| 0 <= k < v.len() && #[trigger] v[k]@ == s
}

/// No string occurs twice in `v`.
pub open spec fn strs_distinct(v: Seq<String>) -> bool {
    forall|i: int, j: int| 0 <= i < v.len() && 0 <= j < v.len() && i != j ==> #[trigger] v[i]@ != #[trigger] v[j]@
}

/// The strings of `a` that are not in `b`, each once, in their first order in `a`.
fn str_difference(a: &Vec<String>, b: &Vec<String>) -> (r: Vec<String>)
    ensures
        strs_distinct(r@),
        forall|s: Seq<char>| #[trigger] has_str(r@, s) <==> (has_str(a@, s) && !has_str(b@, s)),
{
    let mut res: Vec<String> = Vec::new();
    let mut i: usize = 0;
    while i < a.len()
        invariant
            i <= a.len(),
            strs_distinct(res@),
            forall|s: Seq<char>|
                #[trigger] has_str(res@, s) <==> (has_str(a@.subrange(0, i as int), s) && !has_str(b@, s)),
        decreases a.len() - i,
    {
        let x = &a[i];
        let in_b = contains_str(b, x.as_str());
        let in_res = contains_str(&res, x.as_str());
        let ghost before = res@;
        let ghost pre = a@.subrange(0, i as int);
        let ghost pre1 = a@.subrange(0, i + 1);
        assert(pre1 =~= pre.push(a@[i as int]));
        if !in_b && !in_res {
            res.push(x.clone());
            proof {
                assert forall|p: int, q: int|
                    0 <= p < res@.len() && 0 <= q < res@.len() && p != q implies #[trigger] res@[p]@ != #[trigger] res@[q]@ by {
                    if p < before.len() && q < before.len() {
                        assert(before[p] == res@[p]);
                        assert(before[q] == res@[q]);
                    } else if p < before.len() {
                        assert(before[p] == res@[p]);
                        assert(has_str(before, before[p]@));
                    } else {
                        assert(before[q] == res@[q]);
                        assert(has_str(before, before[q]@));
                    }
                }
            }
        }
        proof {
            assert forall|s: Seq<char>|
                #[trigger] has_str(res@, s) <==> (has_str(pre1, s) && !has_str(b@, s)) by {
                if has_str(res@, s) {
                    let k = choose|k: int| 0 <= k < res@.len() && #[trigger] res@[k]@ == s;
                    if k < before.len() {
                        assert(before[k] == res@[k]);
                        assert(has_str(before, s));
                        let k2 = choose|k2: int| 0 <= k2 < pre.len() && #[trigger] pre[k2]@ == s;
                        assert(pre1[k2] == pre[k2]);
                    } else {
                        assert(pre1[i as int]@ == s);
                    }
                }
                if has_str(pre1, s) && !has_str(b@, s) {
                    let k = choose|k: int| 0 <= k < pre1.len() && #[trigger] pre1[k]@ == s;
                    if k < i {
                        assert(pre[k] == pre1[k]);
                        assert(has_str(pre, s));
                        assert(has_str(before, s));
                        let k2 = choose|k2: int| 0 <= k2 < before.len() && #[trigger] before[k2]@ == s;
                        assert(res@[k2] == before[k2]);
                    } else if in_res {
                        assert(has_str(before, s));
                        let k2 = choose|k2: int| 0 <= k2 < before.len() && #[trigger] before[k2]@ == s;
                        assert(res@[k2] == before[k2]);
                    } else {
                        assert(res@[before.len() as int]@ == s);
                    }
                }
            }
        }
        i = i + 1;
    }
    assert(a@.subrange(0, a.len() as int) == a@);
    res
}

/// The follows to delete and to insert so that the stored follows of an account become
/// the ones Bluesky reports: the stored ones no longer reported, and the reported ones
/// not yet stored (each list without repetition).
pub fn follow_changes(existing: &Vec<String>, follows: &Vec<String>) -> (r: (Vec<String>, Vec<String>))
    ensures
        strs_distinct(r.0@),
        strs_distinct(r.1@),
        forall|s: Seq<char>| #[trigger] has_str(r.0@, s) <==> (has_str(existing@, s) && !has_str(follows@, s)),
        forall|s: Seq<char>| #[trigger] has_str(r.1@, s) <==> (has_str(follows@, s) && !has_str(existing@, s)),
{
    let to_remove = str_difference(existing, follows);
    let to_add = str_difference(follows, existing);
    (to_remove, to_add)
}

/// Deleting `to_remove` from the stored follows and inserting `to_add` leaves exactly the
/// reported follows, and nothing is both deleted and inserted.
pub proof fn lemma_follow_changes_reach_reported(
    existing: Seq<String>,
    follows: Seq<String>,
    to_remove: Seq<String>,
    to_add: Seq<String>,
)
    requires
        forall|s: Seq<char>| #[trigger] has_str(to_remove, s) <==> (has_str(existing, s) && !has_str(follows, s)),
        forall|s: Seq<char>| #[trigger] has_str(to_add, s) <==> (has_str(follows, s) && !has_str(existing, s)),
    ensures
        forall|s: Seq<char>|
            ((has_str(existing, s) && !has_str(to_remove, s)) || has_str(to_add, s)) <==> #[trigger] has_str(follows, s),
        forall|s: Seq<char>| !(#[trigger] has_str(to_remove, s) && has_str(to_add, s)),
{
}

/// What the reader does next with a follow event, given whether the account is marked
/// as following too many accounts (`None` when that could not be read).
pub enum FollowEventStep {
    /// Nothing more to do.
    Done,
    /// Wait and try the event again.
    RetryLater,
    /// Store this follow.
    Insert(AccountFollow),
    /// Re-read all follows of this account from Bluesky.
    Rescan(String),
}

/// Follows of accounts marked as following too many are not tracked; a follow is stored
/// directly; an unfollow names no account, so the follower's follows are re-read.
pub fn follow_event_step(event: &JetstreamFollowEvent, too_many_follows: Option<bool>) -> (r: FollowEventStep)
    ensures
        match too_many_follows {
            None => r matches FollowEventStep::RetryLater,
            Some(true) => r matches FollowEventStep::Done,
            Some(false) => match *event {
                JetstreamFollowEvent::Follow(f) => r matches FollowEventStep::Insert(row)
                    && row.account_did@ == f.did@ && row.follow_did@ == f.commit.record.subject@,
                JetstreamFollowEvent::Unfollow(u) => r matches FollowEventStep::Rescan(d) && d@ == u.did@,
            },
        },
{
    match too_many_follows {
        None => FollowEventStep::RetryLater,
        Some(true) => FollowEventStep::Done,
        Some(false) => match event {
            JetstreamFollowEvent::Follow(follow) => FollowEventStep::Insert(
                AccountFollow { account_did: follow.did.clone(), follow_did: follow.subject() },
            ),
            JetstreamFollowEvent::Unfollow(unfollow) => FollowEventStep::Rescan(unfollow.did.clone()),
        },
    }
}

/// The characters of an optional string slice.
pub open spec fn opt_chars(o: Option<&str>) -> Option<Seq<char>> {
    match o {
        Some(t) => Some(t@),
        None => None,
    }
}

/// The route of a frame: frames whose author (read from the text) is empty, or neither
/// watched nor an app user, and frames that are not JSON (`collection` is `None`) are
/// dropped; the others go by their author's standing and their `commit.collection`.
pub open spec fn frame_route(text: Seq<char>, is_watched: bool, is_bluenotify: bool, collection: Option<Seq<char>>) -> MessageRoute {
    if !(did_in_message(text).len() > 0 && (is_watched || is_bluenotify)) {
        MessageRoute::Ignore
    } else {
        match collection {
            None => MessageRoute::Ignore,
            Some(c) => message_route(is_watched, is_bluenotify, c),
        }
    }
}

/// The route of a frame, as `frame_route` gives it.
pub fn frame_route_of(text: &str, is_watched: bool, is_bluenotify: bool, collection: Option<&str>) -> (r: MessageRoute)
    ensures
        r == frame_route(text@, is_watched, is_bluenotify, opt_chars(collection)),
{
    let did = extract_did(text);
    if !should_inspect(did.as_str(), is_watched, is_bluenotify) {
        return MessageRoute::Ignore;
    }
    match collection {
        None => MessageRoute::Ignore,
        Some(c) => route_message(is_watched, is_bluenotify, c),
    }
}

/// Both times of a post can be read: it has a commit, its `createdAt` reads as a
/// timestamp, and its event time is in range.
pub open spec fn post_times_ok(post: JetstreamPost) -> bool {
    match post.commit {
        None => false,
        Some(c) => spec_parse_created_at(c.record.created_at@) is Ok && timestamp_in_range(event_seconds(post.time_us)),
    }
}

/// Why a post message is not published at time `now`, or `None` when it is: it needs a
/// commit, a readable creation time and event time, a creation time no more than two
/// hours before `now`, and the collection of posts or of reposts.
pub open spec fn post_skip(post: JetstreamPost, now: (int, int)) -> Option<PostSkip> {
    match post.commit {
        None => Some(PostSkip::NoCommit),
        Some(c) => match spec_parse_created_at(c.record.created_at@) {
            Err(_) => Some(PostSkip::NoPostTime),
            Ok(t) => if !timestamp_in_range(event_seconds(post.time_us)) {
                Some(PostSkip::NoEventTime)
            } else if datetime_before((t, 0), (now.0 - oldest_post_age(), now.1)) {
                Some(PostSkip::TooOld)
            } else if c.collection@ != post_collection() && c.collection@ != repost_collection() {
                Some(PostSkip::NotAPost)
            } else {
                None
            },
        },
    }
}

/// What the reader does with one frame of the Jetstream.
pub enum FrameStep {
    /// Drop the frame.
    Ignore,
    /// Drop the frame: its author is inspected but its text is not JSON.
    NotJson,
    /// Hand the frame to the follow handler, as the follow or unfollow of an app user.
    RecordFollow,
    /// Drop the frame: it should be a post of a watched account but does not read as one.
    NotAPostMessage,
    /// Drop the post, for this reason.
    Skip(PostSkip),
    /// Publish the frame's text unchanged; once that succeeds, store `cursor` as the time
    /// of the last handled event.
    Publish { publication: PostPublication, cursor: u64 },
}

/// Decides what to do with a frame with text `text`, at time `now`. `is_watched` and
/// `is_bluenotify` say whether the author DID read from the text is watched and whether
/// it is an app user; `collection` is the frame's `commit.collection` (empty when
/// missing, `None` when the text is not JSON); `post` is the frame read as a post
/// message, when it reads as one. A frame is published only for a watched author, as a
/// post or repost created at most two hours before `now`, and a follow frame never is.
pub fn frame_step(
    text: &str,
    is_watched: bool,
    is_bluenotify: bool,
    collection: Option<&str>,
    post: Option<&JetstreamPost>,
    now: &UtcDateTime,
) -> (r: FrameStep)
    requires
        frame_route(text@, is_watched, is_bluenotify, opt_chars(collection)) == MessageRoute::Post ==> match post {
            Some(p) => {
                &&& (p.commit matches Some(c) ==> created_at_defined(c.record.created_at@))
                &&& (post_times_ok(*p) ==> timestamp_in_range(now@.0 - oldest_post_age()))
            },
            None => true,
        },
    ensures
        !(did_in_message(text@).len() > 0 && (is_watched || is_bluenotify)) ==> r is Ignore,
        did_in_message(text@).len() > 0 && (is_watched || is_bluenotify) ==> match collection {
            None => r is NotJson,
            Some(c) => match message_route(is_watched, is_bluenotify, c@) {
                MessageRoute::Ignore => r is Ignore,
                MessageRoute::FollowEvent => r is RecordFollow,
                MessageRoute::Post => match post {
                    None => r is NotAPostMessage,
                    Some(p) => match post_skip(*p, now@) {
                        Some(k) => r == FrameStep::Skip(k),
                        None => r matches FrameStep::Publish { publication, cursor } && publication.subject@
                            == post_subject(p.did@) && publication.msg_id@ == post_msg_id(
                            p.did@,
                            p.commit->Some_0.rkey@,
                        ) && cursor == p.time_us,
                    },
                },
            },
        },
        r is Publish ==> {
            &&& did_in_message(text@).len() > 0
            &&& is_watched
            &&& collection matches Some(c) && c@ != follow_collection()
            &&& post matches Some(p) && p.commit matches Some(pc) && (pc.collection@ == post_collection()
                || pc.collection@ == repost_collection()) && post_times_ok(*p) && !datetime_before(
                (spec_parse_created_at(pc.record.created_at@)->Ok_0, 0),
                (now@.0 - oldest_post_age(), now@.1),
            )
        },
        collection matches Some(c) && c@ == follow_collection() ==> !(r is Publish),
        r is RecordFollow ==> is_bluenotify && (collection matches Some(c) && c@ == follow_collection()),
{
    let did = extract_did(text);
    if !should_inspect(did.as_str(), is_watched, is_bluenotify) {
        return FrameStep::Ignore;
    }
    let c = match collection {
        None => {
            return FrameStep::NotJson;
        },
        Some(c) => c,
    };
    match route_message(is_watched, is_bluenotify, c) {
        MessageRoute::Ignore => FrameStep::Ignore,
        MessageRoute::FollowEvent => FrameStep::RecordFollow,
        MessageRoute::Post => match post {
            None => FrameStep::NotAPostMessage,
            Some(p) => match post_times(p) {
                Err(k) => FrameStep::Skip(k),
                Ok((post_time, _event_time)) => match post_publication(p, &post_time, now) {
                    Err(k) => FrameStep::Skip(k),
                    Ok(publication) => FrameStep::Publish { publication, cursor: p.time_us },
                },
            },
        },
    }
}

/// The cursor to store after a frame's step was carried out: the event time of a
/// published frame, and nothing when the step published nothing or publishing failed.
pub fn cursor_after(step: &FrameStep, published: bool) -> (r: Option<u64>)
    ensures
        r == (match *step {
            FrameStep::Publish { cursor, .. } => if published { Some(cursor) } else { None::<u64> },
            _ => None::<u64>,
        }),
        r is Some ==> published && step is Publish,
{
    match step {
        FrameStep::Publish { cursor, .. } => if published { Some(*cursor) } else { None },
        _ => None,
    }
}

/// Why the follows of an account could not be read from Bluesky.
#[derive(Clone, Debug)]
pub enum GetFollowsError {
    /// The account follows more accounts than the reader tracks.
    TooManyFollows(usize),
    /// The account is deactivated or taken down.
    DisabledAccount,
    /// The request or its answer failed.
    Request(String),
}

/// What the reader does with an account whose follows could not be read.
#[derive(Clone, Copy, Debug, PartialEq, Eq, Structural)]
pub enum RescanFailure {
    /// Mark the account as following too many accounts, so its follows are not tracked.
    MarkTooManyFollows,
    /// Delete the account: it is no longer active.
    DeleteAccount,
    /// Leave everything as it is.
    GiveUp,
}

/// An account that follows too many is marked, a disabled account is deleted, and any
/// other failure leaves the stored follows as they are.
pub fn rescan_failure(e: &GetFollowsError) -> (r: RescanFailure)
    ensures
        r == (match *e {
            GetFollowsError::TooManyFollows(_) => RescanFailure::MarkTooManyFollows,
            GetFollowsError::DisabledAccount => RescanFailure::DeleteAccount,
            GetFollowsError::Request(_) => RescanFailure::GiveUp,
        }),
{
    match e {
        GetFollowsError::TooManyFollows(_) => RescanFailure::MarkTooManyFollows,
        GetFollowsError::DisabledAccount => RescanFailure::DeleteAccount,
        GetFollowsError::Request(_) => RescanFailure::GiveUp,
    }
}

/// A watched author's message of any collection other than follows is handled as a post,
/// whether or not the author uses the app; in particular reposts and posts are.
pub proof fn lemma_watched_messages_are_posts(is_bluenotify: bool, collection: Seq<char>)
    ensures
        collection != "app.bsky.graph.follow"@ ==> message_route(true, is_bluenotify, collection)
            == MessageRoute::Post,
        message_route(true, is_bluenotify, "app.bsky.feed.repost"@) == MessageRoute::Post,
        message_route(true, is_bluenotify, "app.bsky.feed.post"@) == MessageRoute::Post,
        message_route(false, is_bluenotify, collection) != MessageRoute::Post,
{
    reveal_strlit("app.bsky.graph.follow");
    reveal_strlit("app.bsky.feed.repost");
    reveal_strlit("app.bsky.feed.post");
    assert("app.bsky.graph.follow"@ =~= follow_collection());
    assert("app.bsky.feed.repost"@ != "app.bsky.graph.follow"@) by {
        assert("app.bsky.feed.repost"@[9] != "app.bsky.graph.follow"@[9]);
    }
    assert("app.bsky.feed.post"@ != "app.bsky.graph.follow"@) by {
        assert("app.bsky.feed.post"@.len() != "app.bsky.graph.follow"@.len());
    }
}

/// A frame of a watched author that reads as a post or repost, whose event time is in
/// range and that was created no more than two hours before `now`, is routed as a post
/// and is not skipped: `frame_step` publishes it.
pub proof fn lemma_recent_watched_posts_published(
    text: Seq<char>,
    is_bluenotify: bool,
    collection: Seq<char>,
    post: JetstreamPost,
    now: (int, int),
)
    requires
        did_in_message(text).len() > 0,
        collection != "app.bsky.graph.follow"@,
        post.commit matches Some(c) && (c.collection@ == "app.bsky.feed.post"@ || c.collection@
            == "app.bsky.feed.repost"@) && spec_parse_created_at(c.record.created_at@) is Ok
            && !datetime_before(
            (spec_parse_created_at(c.record.created_at@)->Ok_0, 0),
            (now.0 - 7200, now.1),
        ),
        timestamp_in_range(event_seconds(post.time_us)),
    ensures
        frame_route(text, true, is_bluenotify, Some(collection)) == MessageRoute::Post,
        post_skip(post, now) is None,
{
    lemma_watched_messages_are_posts(is_bluenotify, collection);
    reveal_strlit("app.bsky.feed.repost");
    reveal_strlit("app.bsky.feed.post");
    assert("app.bsky.feed.post"@ =~= post_collection());
    assert("app.bsky.feed.repost"@ =~= repost_collection());
}

} // verus!
