//! Firebase Cloud Messaging: the endpoint that delivers messages and the answer to a
//! delivered one.

use vstd::prelude::*;

verus! {

/// A successful response from FCM after sending a message.
#[derive(Clone, Debug)]
pub struct FcmSuccessResponse {
    /// The id FCM gave the message.
    pub name: String,
}

/// The FCM endpoint that sends messages for a Firebase project.
pub open spec fn messages_send_url(project_id: Seq<char>) -> Seq<char> {
    "https://fcm.googleapis.com/v1/projects/"@ + project_id + "/messages:send"@
}

/// `https://fcm.googleapis.com/v1/projects/{project_id}/messages:send`.
pub fn build_url(project_id: &str) -> (r: String)
    ensures
        r@ == messages_send_url(project_id@),
{
    let mut url = String::from_str("https://fcm.googleapis.com/v1/projects/");
    url.append(project_id);
    url.append("/messages:send");
    url
}

} // verus!
