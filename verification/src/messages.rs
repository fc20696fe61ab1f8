//! The texts the engine hands to its callers: the "no project attached"
//! reminder, and the URLs and request bodies of the chat protocol, built
//! exactly as the transport expects them, with the field names the protocol
//! uses.

use vstd::prelude::*;

verus! {

/// The reminder sent when an issue has no project attached, mentioning the
/// issue's display URL.
pub open spec fn spec_reminder_message(url: Seq<char>) -> Seq<char> {
    "Issue "@ + url + " has no project attached. Please attach it to a project."@
}

/// Builds the "no project attached" reminder for an issue shown at `url`.
pub fn reminder_message(url: &str) -> (r: String)
    ensures
        r@ == spec_reminder_message(url@),
{
    let head = String::from_str("Issue ");
    head.concat(url).concat(" has no project attached. Please attach it to a project.")
}

/// The login endpoint of a chat homeserver.
pub fn login_url(homeserver: &str) -> (r: String)
    ensures
        r@ == homeserver@ + "/_matrix/client/r0/login"@,
{
    String::from_str(homeserver).concat("/_matrix/client/r0/login")
}

/// The login request body for a password login through an e-mail
/// third-party identifier.
pub fn login_body(username: &str, password: &str) -> (r: String)
    ensures
        r@ == "{\"type\":\"m.login.password\", \"identifier\": { \"type\": \"m.id.thirdparty\", \"medium\": \"email\", \"address\": \""@
            + username@ + "\" }, \"password\":\""@ + password@ + "\"}"@,
{
    String::from_str(
        "{\"type\":\"m.login.password\", \"identifier\": { \"type\": \"m.id.thirdparty\", \"medium\": \"email\", \"address\": \"",
    ).concat(username).concat("\" }, \"password\":\"").concat(password).concat("\"}")
}

/// The room-creation endpoint, authenticated by `access_token`.
pub fn create_room_url(homeserver: &str, access_token: &str) -> (r: String)
    ensures
        r@ == homeserver@ + "/_matrix/client/r0/createRoom?access_token="@ + access_token@,
{
    String::from_str(homeserver).concat("/_matrix/client/r0/createRoom?access_token=").concat(
        access_token,
    )
}

/// The room-creation request body: a room without an alias.
pub fn create_room_body() -> (r: String)
    ensures
        r@ == "{\"room_alias\":\"\"}"@,
{
    String::from_str("{\"room_alias\":\"\"}")
}

/// The invitation endpoint of a room, authenticated by `access_token`.
pub fn invite_url(homeserver: &str, room_id: &str, access_token: &str) -> (r: String)
    ensures
        r@ == homeserver@ + "/_matrix/client/r0/rooms/"@ + room_id@ + "/invite?access_token="@
            + access_token@,
{
    String::from_str(homeserver).concat("/_matrix/client/r0/rooms/").concat(room_id).concat(
        "/invite?access_token=",
    ).concat(access_token)
}

/// The invitation request body for `user_id`.
pub fn invite_body(user_id: &str) -> (r: String)
    ensures
        r@ == "{\"user_id\":\""@ + user_id@ + "\"}"@,
{
    String::from_str("{\"user_id\":\"").concat(user_id).concat("\"}")
}

/// The message-sending endpoint of a room, authenticated by `access_token`.
pub fn send_message_url(homeserver: &str, room_id: &str, access_token: &str) -> (r: String)
    ensures
        r@ == homeserver@ + "/_matrix/client/r0/rooms/"@ + room_id@
            + "/send/m.room.message?access_token="@ + access_token@,
{
    String::from_str(homeserver).concat("/_matrix/client/r0/rooms/").concat(room_id).concat(
        "/send/m.room.message?access_token=",
    ).concat(access_token)
}

/// The request body of a plain-text chat message.
pub fn send_message_body(body: &str) -> (r: String)
    ensures
        r@ == "{\"msgtype\":\"m.text\",\"body\":\""@ + body@ + "\"}"@,
{
    String::from_str("{\"msgtype\":\"m.text\",\"body\":\"").concat(body).concat("\"}")
}

} // verus!
