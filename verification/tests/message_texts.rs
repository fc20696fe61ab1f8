use issue_escalation::messages::{
    create_room_body, create_room_url, invite_body, invite_url, login_body, login_url,
    reminder_message, send_message_body, send_message_url,
};

#[test]
fn reminder_mentions_the_issue_url() {
    let msg = reminder_message("https://example.org/org/repo/issues/42");
    assert_eq!(
        msg,
        "Issue https://example.org/org/repo/issues/42 has no project attached. \
         Please attach it to a project."
    );
}

#[test]
fn login_request_matches_the_chat_protocol() {
    assert_eq!(login_url("https://m.example.org"), "https://m.example.org/_matrix/client/r0/login");
    assert_eq!(
        login_body("bot@example.org", "hunter2"),
        "{\"type\":\"m.login.password\", \"identifier\": { \"type\": \"m.id.thirdparty\", \
         \"medium\": \"email\", \"address\": \"bot@example.org\" }, \"password\":\"hunter2\"}"
    );
}

#[test]
fn room_requests_match_the_chat_protocol() {
    assert_eq!(
        create_room_url("https://m.example.org", "tok"),
        "https://m.example.org/_matrix/client/r0/createRoom?access_token=tok"
    );
    assert_eq!(create_room_body(), "{\"room_alias\":\"\"}");
    assert_eq!(
        invite_url("https://m.example.org", "!r:example.org", "tok"),
        "https://m.example.org/_matrix/client/r0/rooms/!r:example.org/invite?access_token=tok"
    );
    assert_eq!(invite_body("@u:example.org"), "{\"user_id\":\"@u:example.org\"}");
}

#[test]
fn message_requests_match_the_chat_protocol() {
    assert_eq!(
        send_message_url("https://m.example.org", "!r:example.org", "tok"),
        "https://m.example.org/_matrix/client/r0/rooms/!r:example.org/send/m.room.message?access_token=tok"
    );
    assert_eq!(
        send_message_body("Issue x has no project attached."),
        "{\"msgtype\":\"m.text\",\"body\":\"Issue x has no project attached.\"}"
    );
}
